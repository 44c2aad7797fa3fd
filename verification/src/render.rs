//! The content renderer: one section of the document for each text file.
//!
//! A section is a heading line with the path below the root, a fenced block
//! tagged with a language label that holds the decoded content, and a blank
//! line. Files that look binary get no section and are reported instead.

use crate::binary::{has_null_byte, is_likely_binary};
use crate::decode::{decode_lossy, decoded};
use crate::paths::{extension_of, final_extension, relative_to, strip_root};
use crate::select::{kept, lemma_kept_empty, lemma_kept_push, lemma_kept_remove};
use crate::text::{lemma_encoding_of_concat, text_eq};
use vstd::prelude::*;
use vstd::string::StringExecFns;
use vstd::utf8::{decode_utf8, decode_utf8_encode_utf8, encode_utf8, valid_utf8};

verus! {

/// A file of the list together with its content.
#[derive(Clone, Debug)]
pub struct FileEntry {
    /// The path of the file, the root's own path leading.
    pub path: String,
    /// The bytes read from the file.
    pub bytes: Vec<u8>,
}

/// A file with its content as contracts see it.
pub struct FileView {
    pub path: Seq<char>,
    pub bytes: Seq<u8>,
}

impl View for FileEntry {
    type V = FileView;

    open spec fn view(&self) -> FileView {
        FileView { path: self.path@, bytes: self.bytes@ }
    }
}

impl DeepView for FileEntry {
    type V = FileView;

    open spec fn deep_view(&self) -> FileView {
        self@
    }
}

/// What rendering a list of files gives.
#[derive(Clone, Debug)]
pub struct Document {
    /// The text of the document: the sections of the text files, in list order.
    pub text: String,
    /// The paths of the files skipped as binary, in list order.
    pub skipped: Vec<String>,
}

/// A document as contracts see it.
pub struct DocumentView {
    pub text: Seq<char>,
    pub skipped: Seq<Seq<char>>,
}

impl View for Document {
    type V = DocumentView;

    open spec fn view(&self) -> DocumentView {
        DocumentView { text: self.text@, skipped: self.skipped.deep_view() }
    }
}

/// The language label that goes with a file extension.
pub open spec fn label_for(ext: Option<Seq<char>>) -> Seq<char> {
    match ext {
        Some(e) => if e == "rs"@ {
            "rust"@
        } else if e == "js"@ {
            "javascript"@
        } else if e == "ts"@ {
            "typescript"@
        } else if e == "py"@ {
            "python"@
        } else if e == "java"@ {
            "java"@
        } else if e == "cpp"@ || e == "cc"@ {
            "cpp"@
        } else if e == "c"@ {
            "c"@
        } else if e == "html"@ {
            "html"@
        } else if e == "css"@ {
            "css"@
        } else if e == "json"@ {
            "json"@
        } else if e == "toml"@ {
            "toml"@
        } else if e == "yaml"@ || e == "yml"@ {
            "yaml"@
        } else {
            "text"@
        },
        None => "text"@,
    }
}

/// The path that a section shows for a file: the path below the root, or the
/// whole path where the file does not lie under the root.
pub open spec fn shown_path(path: Seq<char>, root: Seq<char>) -> Seq<char> {
    match relative_to(path, root) {
        Some(rest) => rest,
        None => path,
    }
}

/// The opening of a section: the heading line and the opening fence.
pub open spec fn section_head(shown: Seq<char>, label: Seq<char>) -> Seq<char> {
    "# File path: "@ + shown + "\n```"@ + label + "\n"@
}

/// The end of a section: a line break, the closing fence and a blank line.
pub open spec fn section_tail() -> Seq<char> {
    "\n```\n\n"@
}

/// A whole section.
pub open spec fn section_text(shown: Seq<char>, label: Seq<char>, content: Seq<char>) -> Seq<char> {
    section_head(shown, label) + content + section_tail()
}

/// The section of the file at `path` with the content `bytes`.
pub open spec fn file_section(path: Seq<char>, root: Seq<char>, bytes: Seq<u8>) -> Seq<char> {
    section_text(shown_path(path, root), label_for(extension_of(path)), decoded(bytes))
}

/// What rendering a file gives: nothing where the content looks binary, and
/// the file's section otherwise.
pub open spec fn rendering(path: Seq<char>, root: Seq<char>, bytes: Seq<u8>) -> Option<Seq<char>> {
    if has_null_byte(bytes) {
        None
    } else {
        Some(file_section(path, root, bytes))
    }
}

/// What a file adds to the document: its section, or nothing where it has none.
pub open spec fn contribution(file: FileView, root: Seq<char>) -> Seq<char> {
    match rendering(file.path, root, file.bytes) {
        Some(section) => section,
        None => Seq::empty(),
    }
}

/// The text of the document for a list of files: what each adds, in list order.
pub open spec fn document_text(files: Seq<FileView>, root: Seq<char>) -> Seq<char>
    decreases files.len(),
{
    if files.len() == 0 {
        Seq::empty()
    } else {
        document_text(files.drop_last(), root) + contribution(files.last(), root)
    }
}

/// The paths of the files that look binary, in list order.
pub open spec fn skipped_paths(files: Seq<FileView>) -> Seq<Seq<char>> {
    kept(files, |f: FileView| has_null_byte(f.bytes), |f: FileView| f.path)
}

/// The document for a list of files.
pub open spec fn document_of(files: Seq<FileView>, root: Seq<char>) -> DocumentView {
    DocumentView { text: document_text(files, root), skipped: skipped_paths(files) }
}

/// The label for the extension `ext`; `text` for an extension that the table
/// does not hold and for a file without one.
pub fn language_for_extension(ext: Option<&str>) -> (label: &'static str)
    ensures
        label@ == label_for(ext.deep_view()),
{
    match ext {
        Some(e) => {
            if text_eq(e, "rs") {
                "rust"
            } else if text_eq(e, "js") {
                "javascript"
            } else if text_eq(e, "ts") {
                "typescript"
            } else if text_eq(e, "py") {
                "python"
            } else if text_eq(e, "java") {
                "java"
            } else if text_eq(e, "cpp") || text_eq(e, "cc") {
                "cpp"
            } else if text_eq(e, "c") {
                "c"
            } else if text_eq(e, "html") {
                "html"
            } else if text_eq(e, "css") {
                "css"
            } else if text_eq(e, "json") {
                "json"
            } else if text_eq(e, "toml") {
                "toml"
            } else if text_eq(e, "yaml") || text_eq(e, "yml") {
                "yaml"
            } else {
                "text"
            }
        },
        None => "text",
    }
}

/// The label for the file at `path`, by its extension.
pub fn language_label(path: &str) -> (label: &'static str)
    ensures
        label@ == label_for(extension_of(path@)),
{
    let ext = final_extension(path);
    match &ext {
        Some(e) => language_for_extension(Some(e.as_str())),
        None => language_for_extension(None),
    }
}

/// The path to show for the file at `path`: the part below `root_dir`, or
/// `path` itself where it does not lie under `root_dir`.
pub fn display_path(path: &str, root_dir: &str) -> (shown: String)
    ensures
        shown@ == shown_path(path@, root_dir@),
{
    match strip_root(path, root_dir) {
        Some(rest) => rest,
        None => String::from_str(path),
    }
}

/// Writes out one section.
pub fn render_section(shown: &str, label: &str, content: &str) -> (section: String)
    ensures
        section@ == section_text(shown@, label@, content@),
{
    let mut section = String::from_str("# File path: ");
    section.append(shown);
    section.append("\n```");
    section.append(label);
    section.append("\n");
    section.append(content);
    section.append("\n```\n\n");
    assert(section@ =~= section_text(shown@, label@, content@));
    section
}

/// Renders one file: `None` where the content looks binary, and the file's
/// section otherwise.
pub fn render_file(path: &str, root_dir: &str, bytes: &[u8]) -> (section: Option<String>)
    ensures
        section.deep_view() == rendering(path@, root_dir@, bytes@),
{
    if is_likely_binary(bytes) {
        return None;
    }
    let content = decode_lossy(bytes);
    let shown = display_path(path, root_dir);
    let label = language_label(path);
    Some(render_section(shown.as_str(), label, content.as_str()))
}

/// Renders the files in list order into one document and reports the files
/// skipped as binary.
pub fn render_document(files: &Vec<FileEntry>, root_dir: &str) -> (doc: Document)
    ensures
        doc@ == document_of(files.deep_view(), root_dir@),
{
    let ghost all = files.deep_view();
    let mut text = String::new();
    let mut skipped: Vec<String> = Vec::new();
    let mut i: usize = 0;
    proof {
        lemma_kept_empty(|f: FileView| has_null_byte(f.bytes), |f: FileView| f.path);
        assert(all.take(0) =~= Seq::<FileView>::empty());
        assert(skipped.deep_view() =~= Seq::<Seq<char>>::empty());
    }
    while i < files.len()
        invariant
            i <= files.len(),
            all == files.deep_view(),
            text@ == document_text(all.take(i as int), root_dir@),
            skipped.deep_view() == skipped_paths(all.take(i as int)),
        decreases files.len() - i,
    {
        let file = &files[i];
        let ghost reported = skipped.deep_view();
        proof {
            assert(all.take(i + 1).drop_last() =~= all.take(i as int));
            assert(all.take(i + 1) =~= all.take(i as int).push(file@));
            lemma_skipped_paths_push(all.take(i as int), file@);
        }
        match render_file(file.path.as_str(), root_dir, file.bytes.as_slice()) {
            Some(section) => {
                text.append(section.as_str());
            },
            None => {
                skipped.push(file.path.clone());
                assert(skipped.deep_view() =~= reported.push(file.path@));
                assert(text@ + Seq::<char>::empty() =~= text@);
            },
        }
        i += 1;
    }
    assert(all.take(i as int) =~= all);
    Document { text, skipped }
}

/// One file further down the list adds its path to the skipped paths if it
/// looks binary, and nothing otherwise.
pub proof fn lemma_skipped_paths_push(files: Seq<FileView>, file: FileView)
    ensures
        skipped_paths(files.push(file)) == if has_null_byte(file.bytes) {
            skipped_paths(files).push(file.path)
        } else {
            skipped_paths(files)
        },
{
    lemma_kept_push(files, file, |f: FileView| has_null_byte(f.bytes), |f: FileView| f.path);
}

/// Content that is valid UTF-8 and holds no null byte is rendered, and stands
/// in its section unchanged: the bytes of the section are those of the
/// opening, the very bytes of the content, and those of the end.
pub proof fn lemma_valid_text_round_trip(path: Seq<char>, root: Seq<char>, bytes: Seq<u8>)
    requires
        valid_utf8(bytes),
        !has_null_byte(bytes),
    ensures
        rendering(path, root, bytes) == Some(
            section_head(shown_path(path, root), label_for(extension_of(path))) + decode_utf8(bytes)
                + section_tail(),
        ),
        encode_utf8(rendering(path, root, bytes).unwrap()) == encode_utf8(
            section_head(shown_path(path, root), label_for(extension_of(path))),
        ) + bytes + encode_utf8(section_tail()),
{
    let head = section_head(shown_path(path, root), label_for(extension_of(path)));
    lemma_encoding_of_concat(head + decode_utf8(bytes), section_tail());
    lemma_encoding_of_concat(head, decode_utf8(bytes));
    decode_utf8_encode_utf8(bytes);
}

/// Rendering only ever appends: the document of a list is the document of
/// its first `k` files followed by the document of the files after them.
pub proof fn lemma_document_splits(files: Seq<FileView>, root: Seq<char>, k: int)
    requires
        0 <= k <= files.len(),
    ensures
        document_text(files, root) == document_text(files.take(k), root) + document_text(
            files.skip(k),
            root,
        ),
    decreases files.len() - k,
{
    if k == files.len() {
        assert(files.take(k) =~= files);
        assert(files.skip(k) =~= Seq::<FileView>::empty());
        assert(document_text(files, root) + Seq::<char>::empty() =~= document_text(files, root));
    } else {
        let init = files.drop_last();
        lemma_document_splits(init, root, k);
        assert(init.take(k) =~= files.take(k));
        assert(files.skip(k).drop_last() =~= init.skip(k));
        assert(files.skip(k).last() == files.last());
        assert(document_text(files, root) =~= document_text(files.take(k), root) + document_text(
            files.skip(k),
            root,
        ));
    }
}

/// A file that looks binary adds nothing to the document, and exactly one
/// entry, its own path, to the skipped paths: without it the document is the
/// same and the skipped paths are one fewer.
pub proof fn lemma_binary_file_is_skipped(files: Seq<FileView>, root: Seq<char>, k: int)
    requires
        0 <= k < files.len(),
        has_null_byte(files[k].bytes),
    ensures
        document_text(files, root) == document_text(files.remove(k), root),
        skipped_paths(files).to_multiset() == skipped_paths(files.remove(k)).to_multiset().insert(
            files[k].path,
        ),
    decreases files.len(),
{
    lemma_kept_remove(files, |f: FileView| has_null_byte(f.bytes), |f: FileView| f.path, k);
    let init = files.drop_last();
    if k == files.len() - 1 {
        assert(files.remove(k) =~= init);
        assert(document_text(files, root) =~= document_text(init, root));
    } else {
        lemma_binary_file_is_skipped(init, root, k);
        assert(files.remove(k).drop_last() =~= init.remove(k));
        assert(files.remove(k).last() == files.last());
    }
}

} // verus!
