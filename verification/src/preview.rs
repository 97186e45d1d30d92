//! The preview of a file: what kind of thing it is, and its content as
//! terminal text.
//!
//! The file system is read by the caller. A preview is asked for with what is
//! known of the file; where a directory listing or the content is needed and
//! has not been read, the answer says so, and the caller asks again with it.

use vstd::prelude::*;
use syntect::highlighting::ThemeSet;
use syntect::parsing::{SyntaxReference, SyntaxSet};
use crate::highlight::{
    find_by_extension,
    find_by_first_line,
    find_theme,
    found,
    found_in,
    highlight_text,
    highlighted_text,
    load_syntaxes,
    load_themes,
    syntax_by_extension,
    syntax_by_first_line,
    text_of,
    theme_by_name,
};
use crate::lines::{copy_range, join_lines, joined, lines_of, split_lines};
use crate::markdown::{markdown_text, render_markdown_chars};
use crate::scan::{distance_to, find_closing};
use crate::size::{format_size, size_text};
use crate::text::{
    append_decimal,
    append_str,
    chars_of,
    decimal,
    lowercase_of,
    spells,
    string_of,
    to_lowercase,
    to_uppercase,
    uppercase_of,
};

verus! {

/// The largest file whose content is read, in bytes.
pub const MAX_PREVIEW_BYTES: u64 = 524288;

/// The largest number of lines that are rendered.
pub const MAX_PREVIEW_LINES: usize = 1000;

/// What the preview panel shows of a file.
#[derive(Debug, PartialEq, Eq)]
pub enum PreviewContent {
    Text(String),
    Directory(String),
    Binary(String),
    Empty,
    Error(String),
}

/// The model of a `PreviewContent`.
pub enum ContentModel {
    Text(Seq<char>),
    Directory(Seq<char>),
    Binary(Seq<char>),
    Empty,
    Error(Seq<char>),
}

impl View for PreviewContent {
    type V = ContentModel;

    open spec fn view(&self) -> ContentModel {
        match self {
            PreviewContent::Text(s) => ContentModel::Text(s@),
            PreviewContent::Directory(s) => ContentModel::Directory(s@),
            PreviewContent::Binary(s) => ContentModel::Binary(s@),
            PreviewContent::Empty => ContentModel::Empty,
            PreviewContent::Error(s) => ContentModel::Error(s@),
        }
    }
}

/// What the file system says of a path.
#[derive(Debug, Clone, Copy)]
pub struct FileFacts {
    pub is_directory: bool,
    pub size: u64,
    pub is_symlink: bool,
}

/// What has been read of a file beyond its facts. A failed read carries the
/// message of its error.
#[derive(Debug)]
pub enum Reading {
    Nothing,
    /// For each entry of the directory, whether it is a directory itself.
    Listing(Result<Vec<bool>, String>),
    Content(Result<String, String>),
}

/// All that is known of the file to be previewed.
#[derive(Debug)]
pub struct FileSource {
    pub name: String,
    pub extension: Option<String>,
    pub facts: Result<FileFacts, String>,
    pub reading: Reading,
}

/// The answer to a request for a preview: the preview and the number of lines
/// of the whole file, or what has to be read first.
#[derive(Debug)]
pub enum Preview {
    Ready(PreviewContent, usize),
    NeedsListing,
    NeedsContent,
}

/// The model of a `Preview`.
pub enum PreviewModel {
    Ready(ContentModel, nat),
    NeedsListing,
    NeedsContent,
}

impl View for Preview {
    type V = PreviewModel;

    open spec fn view(&self) -> PreviewModel {
        match self {
            Preview::Ready(content, total) => PreviewModel::Ready(content@, *total as nat),
            Preview::NeedsListing => PreviewModel::NeedsListing,
            Preview::NeedsContent => PreviewModel::NeedsContent,
        }
    }
}

/// The extensions of files that are not text: images, sound, film, archives,
/// office documents, programs, fonts, databases.
pub open spec fn binary_extensions() -> Seq<&'static str> {
    seq![
        "png",
        "jpg",
        "jpeg",
        "gif",
        "bmp",
        "ico",
        "webp",
        "avif",
        "mp3",
        "mp4",
        "wav",
        "avi",
        "mkv",
        "mov",
        "flac",
        "ogg",
        "zip",
        "gz",
        "tar",
        "bz2",
        "xz",
        "7z",
        "rar",
        "pdf",
        "doc",
        "docx",
        "xls",
        "xlsx",
        "ppt",
        "pptx",
        "exe",
        "dll",
        "so",
        "dylib",
        "bin",
        "o",
        "a",
        "woff",
        "woff2",
        "ttf",
        "otf",
        "eot",
        "sqlite",
        "db",
    ]
}

/// True of an extension that, in lower case, is one of the binary ones.
pub open spec fn is_binary_extension(extension: Option<Seq<char>>) -> bool {
    match extension {
        Some(e) => exists|k: int|
            0 <= k < binary_extensions().len() && (#[trigger] binary_extensions()[k])@
                == lowercase_of(e),
        None => false,
    }
}

/// Tells by its extension whether a file is taken for binary.
pub fn is_likely_binary(extension: Option<&str>) -> (b: bool)
    ensures
        b == is_binary_extension(
            match extension {
                Some(e) => Some(e@),
                None => None,
            },
        ),
{
    let e = match extension {
        Some(e) => e,
        None => {
            return false;
        },
    };
    let lowered = to_lowercase(e);
    let chars = chars_of(lowered.as_str());
    let known: Vec<&'static str> = vec![
        "png",
        "jpg",
        "jpeg",
        "gif",
        "bmp",
        "ico",
        "webp",
        "avif",
        "mp3",
        "mp4",
        "wav",
        "avi",
        "mkv",
        "mov",
        "flac",
        "ogg",
        "zip",
        "gz",
        "tar",
        "bz2",
        "xz",
        "7z",
        "rar",
        "pdf",
        "doc",
        "docx",
        "xls",
        "xlsx",
        "ppt",
        "pptx",
        "exe",
        "dll",
        "so",
        "dylib",
        "bin",
        "o",
        "a",
        "woff",
        "woff2",
        "ttf",
        "otf",
        "eot",
        "sqlite",
        "db",
    ];
    assert(known@ =~= binary_extensions());
    let mut i: usize = 0;
    while i < known.len()
        invariant
            i <= known.len(),
            known@ == binary_extensions(),
            extension == Some(e),
            chars@ == lowercase_of(e@),
            forall|k: int| 0 <= k < i ==> (#[trigger] binary_extensions()[k])@ != chars@,
        decreases known.len() - i,
    {
        if spells(&chars, known[i]) {
            assert(binary_extensions()[i as int]@ == lowercase_of(e@));
            return true;
        }
        i += 1;
    }
    false
}

/// A message of the file system as it is shown.
pub open spec fn error_text(message: Seq<char>) -> Seq<char> {
    "Error: "@ + message
}

/// How many of the first `count` entries are directories.
pub open spec fn directories_in(flags: Seq<bool>, count: int) -> nat
    decreases count,
{
    if count <= 0 {
        0
    } else {
        directories_in(flags, count - 1) + if flags[count - 1] {
            1nat
        } else {
            0nat
        }
    }
}

/// The summary of a directory: how many entries, how many of them directories
/// and how many files.
pub open spec fn directory_summary(flags: Seq<bool>) -> Seq<char> {
    let total = flags.len();
    let dirs = directories_in(flags, total as int);
    "Directory: "@ + decimal(total) + " items ("@ + decimal(dirs) + " dirs, "@ + decimal(
        (total - dirs) as nat,
    ) + " files)"@
}

/// The summary of a binary file: its extension in upper case and its size.
pub open spec fn binary_summary(extension: Seq<char>, size: nat) -> Seq<char> {
    "Binary file ("@ + uppercase_of(extension) + ")\nSize: "@ + size_text(size)
}

/// What stands in place of a file too large to read.
pub open spec fn oversize_text(size: nat) -> Seq<char> {
    "File too large to preview ("@ + size_text(size) + ")"@
}

/// The part of `content` that is rendered: all of it, or its first 1000 lines
/// where it has more.
pub open spec fn truncated(content: Seq<char>) -> Seq<char> {
    let lines = lines_of(content);
    if lines.len() > 1000 {
        joined(lines.subrange(0, 1000))
    } else {
        content
    }
}

/// The first line of `content`, with the newline that ends it.
pub open spec fn first_line(content: Seq<char>) -> Seq<char> {
    let newline = distance_to(content, 0, '\n');
    if newline < content.len() {
        content.subrange(0, newline as int + 1)
    } else {
        content
    }
}

/// An extension that may be missing, as text: the empty text where it is.
pub open spec fn or_empty(extension: Option<Seq<char>>) -> Seq<char> {
    match extension {
        Some(e) => e,
        None => Seq::empty(),
    }
}

/// The extension in lower case.
pub open spec fn lowered(extension: Option<Seq<char>>) -> Seq<char> {
    match extension {
        Some(e) => lowercase_of(e),
        None => Seq::empty(),
    }
}

/// The first of two answers that is one.
pub open spec fn or_else<T>(first: Option<T>, second: Option<T>) -> Option<T> {
    match first {
        Some(value) => Some(value),
        None => second,
    }
}

/// The syntax of a file: what the set finds for its name taken as an
/// extension, else for its extension, else for its first line, else for its
/// extension in lower case.
pub open spec fn file_syntax(
    set: SyntaxSet,
    name: Seq<char>,
    extension: Option<Seq<char>>,
    content: Seq<char>,
) -> Option<SyntaxReference> {
    or_else(
        or_else(
            or_else(syntax_by_extension(set, name), syntax_by_extension(set, or_empty(extension))),
            syntax_by_first_line(set, first_line(content)),
        ),
        syntax_by_extension(set, lowered(extension)),
    )
}

/// True of the extensions of markdown files.
pub open spec fn is_markdown(extension: Option<Seq<char>>) -> bool {
    lowered(extension) == "md"@ || lowered(extension) == "mdx"@
}

/// The content of a text file as terminal text: markdown is rendered, a file
/// with a known syntax is highlighted, any other is shown as it is.
pub open spec fn text_rendering(
    set: SyntaxSet,
    themes: ThemeSet,
    name: Seq<char>,
    extension: Option<Seq<char>>,
    content: Seq<char>,
) -> Seq<char> {
    let shown = truncated(content);
    if is_markdown(extension) {
        markdown_text(set, themes, shown)
    } else {
        match (
            file_syntax(set, name, extension, content),
            theme_by_name(themes, "base16-ocean.dark"@),
        ) {
            (Some(syntax), Some(theme)) => highlighted_text(
                set,
                syntax,
                theme,
                shown,
                Seq::empty(),
            ),
            _ => shown,
        }
    }
}

/// The preview of a directory, from its listing or the error of reading it.
pub open spec fn directory_preview(listing: Result<Vec<bool>, String>) -> ContentModel {
    match listing {
        Ok(flags) => ContentModel::Directory(directory_summary(flags@)),
        Err(message) => ContentModel::Error(error_text(message@)),
    }
}

/// The answer to a request for a preview. The rules are tried in this order:
/// facts that could not be read are an error; a directory is summarised from
/// its listing; a binary extension gives a summary; an empty file is empty; a
/// file over the size limit gives a placeholder; content that could not be
/// read is an error; any other content is rendered, and the number of its
/// lines reported.
pub open spec fn preview_of(set: SyntaxSet, themes: ThemeSet, source: FileSource) -> PreviewModel {
    match source.facts {
        Err(message) => PreviewModel::Ready(ContentModel::Error(error_text(message@)), 1),
        Ok(facts) => {
            if facts.is_directory {
                match source.reading {
                    Reading::Listing(listing) => PreviewModel::Ready(
                        directory_preview(listing),
                        1,
                    ),
                    _ => PreviewModel::NeedsListing,
                }
            } else if is_binary_extension(text_of(source.extension)) {
                PreviewModel::Ready(
                    ContentModel::Binary(
                        binary_summary(or_empty(text_of(source.extension)), facts.size as nat),
                    ),
                    2,
                )
            } else if facts.size == 0 {
                PreviewModel::Ready(ContentModel::Empty, 1)
            } else if facts.size > 524288 {
                PreviewModel::Ready(ContentModel::Text(oversize_text(facts.size as nat)), 1)
            } else {
                match source.reading {
                    Reading::Content(Ok(content)) => PreviewModel::Ready(
                        ContentModel::Text(
                            text_rendering(
                                set,
                                themes,
                                source.name@,
                                text_of(source.extension),
                                content@,
                            ),
                        ),
                        lines_of(content@).len(),
                    ),
                    Reading::Content(Err(message)) => PreviewModel::Ready(
                        ContentModel::Error(error_text(message@)),
                        1,
                    ),
                    _ => PreviewModel::NeedsContent,
                }
            }
        },
    }
}

/// The parts of a file's one-line description: its extension in upper case,
/// its size, and a mark where it is a symbolic link.
pub open spec fn info_text(extension: Option<Seq<char>>, facts: FileFacts) -> Seq<char> {
    (match extension {
        Some(e) => uppercase_of(e) + " | "@,
        None => Seq::empty(),
    }) + size_text(facts.size as nat) + if facts.is_symlink {
        " | symlink"@
    } else {
        Seq::empty()
    }
}

/// An error of the file system as preview content.
pub fn error_content(message: &str) -> (content: PreviewContent)
    ensures
        content@ == ContentModel::Error(error_text(message@)),
{
    let mut out: Vec<char> = Vec::new();
    append_str(&mut out, "Error: ");
    append_str(&mut out, message);
    PreviewContent::Error(string_of(&out))
}

/// Summarises a directory from its listing, or reports the error of reading
/// it.
pub fn preview_directory(listing: &Result<Vec<bool>, String>) -> (content: PreviewContent)
    ensures
        content@ == directory_preview(*listing),
{
    match listing {
        Ok(flags) => {
            let total = flags.len();
            let mut dirs: usize = 0;
            let mut i: usize = 0;
            while i < total
                invariant
                    total == flags.len(),
                    i <= total,
                    dirs <= i,
                    dirs == directories_in(flags@, i as int),
                decreases total - i,
            {
                if flags[i] {
                    dirs += 1;
                }
                i += 1;
            }
            let mut out: Vec<char> = Vec::new();
            append_str(&mut out, "Directory: ");
            append_decimal(&mut out, total as u64);
            append_str(&mut out, " items (");
            append_decimal(&mut out, dirs as u64);
            append_str(&mut out, " dirs, ");
            append_decimal(&mut out, (total - dirs) as u64);
            append_str(&mut out, " files)");
            assert(out@ =~= directory_summary(flags@));
            PreviewContent::Directory(string_of(&out))
        },
        Err(message) => error_content(message.as_str()),
    }
}

/// The extension as an optional `&str`.
fn extension_of(source: &FileSource) -> (extension: Option<&str>)
    ensures
        match extension {
            Some(e) => text_of(source.extension) == Some(e@),
            None => source.extension is None,
        },
{
    match &source.extension {
        Some(e) => Some(e.as_str()),
        None => None,
    }
}

/// Finds the syntax of a file.
pub(crate) fn find_file_syntax<'a>(
    previewer: &'a Previewer,
    name: &str,
    extension: Option<&str>,
    content: &Vec<char>,
) -> (syntax: Option<&'a SyntaxReference>)
    ensures
        found(syntax) == file_syntax(
            previewer.syntaxes(),
            name@,
            match extension {
                Some(e) => Some(e@),
                None => None,
            },
            content@,
        ),
        syntax matches Some(s) ==> found_in(previewer.syntaxes(), *s),
{
    if let Some(syntax) = find_by_extension(previewer, name) {
        return Some(syntax);
    }
    let plain = match extension {
        Some(e) => e,
        None => "",
    };
    proof {
        reveal_strlit("");
        assert(""@ =~= Seq::<char>::empty());
    }
    if let Some(syntax) = find_by_extension(previewer, plain) {
        return Some(syntax);
    }
    let newline = find_closing(content, 0, '\n');
    proof {
        crate::scan::lemma_index_of(content@, 0, '\n');
        assert(crate::scan::as_index(newline) == crate::scan::index_of(content@, 0, '\n'));
    }
    let first = match newline {
        Some(at) => {
            assert(at < content.len());
            copy_range(content, 0, at + 1)
        },
        None => copy_range(content, 0, content.len()),
    };
    assert(first@ =~= first_line(content@));
    let first_text = string_of(&first);
    if let Some(syntax) = find_by_first_line(previewer, first_text.as_str()) {
        return Some(syntax);
    }
    let lower = match extension {
        Some(e) => to_lowercase(e),
        None => String::new(),
    };
    find_by_extension(previewer, lower.as_str())
}

/// The syntax definitions and colour themes that previews are rendered with:
/// those that came with syntect. Nothing outside this library can make a
/// previewer with others, or change them.
pub struct Previewer {
    pub(crate) syntax_set: SyntaxSet,
    pub(crate) theme_set: ThemeSet,
}

impl Previewer {
    /// The syntax definitions of this previewer.
    pub closed spec fn syntaxes(&self) -> SyntaxSet {
        self.syntax_set
    }

    /// The colour themes of this previewer.
    pub closed spec fn themes(&self) -> ThemeSet {
        self.theme_set
    }

    /// A previewer with the syntax definitions and themes that come with the
    /// highlighter. Among its themes is the one that highlighting uses, so
    /// that whatever has a syntax is highlighted.
    pub fn new() -> (previewer: Previewer)
        ensures
            theme_by_name(previewer.themes(), "base16-ocean.dark"@) is Some,
    {
        Previewer { syntax_set: load_syntaxes(), theme_set: load_themes() }
    }

    /// Renders markdown as terminal text.
    pub fn render_markdown(&self, input: &str) -> (rendered: String)
        ensures
            rendered@ == markdown_text(self.syntaxes(), self.themes(), input@),
    {
        crate::markdown::render_markdown(self, input)
    }

    /// Renders the content of a text file, and counts its lines.
    pub fn preview_text(&self, name: &str, extension: Option<&str>, content: &str) -> (rendered: (
        String,
        usize,
    ))
        ensures
            rendered.0@ == text_rendering(
                self.syntaxes(),
                self.themes(),
                name@,
                match extension {
                    Some(e) => Some(e@),
                    None => None,
                },
                content@,
            ),
            rendered.1 == lines_of(content@).len(),
    {
        let chars = chars_of(content);
        let lines = split_lines(&chars);
        let total = lines.len();
        let shown: Vec<char> = if total > MAX_PREVIEW_LINES {
            join_lines(&lines, 0, MAX_PREVIEW_LINES)
        } else {
            copy_range(&chars, 0, chars.len())
        };
        assert(shown@ =~= truncated(content@));
        let lower = match extension {
            Some(e) => to_lowercase(e),
            None => String::new(),
        };
        let lower_chars = chars_of(lower.as_str());
        if spells(&lower_chars, "md") || spells(&lower_chars, "mdx") {
            let out = render_markdown_chars(self, &shown);
            return (string_of(&out), total);
        }
        let syntax = find_file_syntax(self, name, extension, &chars);
        let theme = find_theme(self, "base16-ocean.dark");
        match (syntax, theme) {
            (Some(syntax), Some(theme)) => {
                proof {
                    reveal_strlit("");
                    assert(""@ =~= Seq::<char>::empty());
                }
                let out = highlight_text(self, syntax, theme, &shown, "");
                (string_of(&out), total)
            },
            _ => (string_of(&shown), total),
        }
    }

    /// Answers a request for a preview of `source`.
    pub fn preview(&self, source: &FileSource) -> (answer: Preview)
        ensures
            answer@ == preview_of(self.syntaxes(), self.themes(), *source),
    {
        let facts = match &source.facts {
            Ok(facts) => *facts,
            Err(message) => {
                return Preview::Ready(error_content(message.as_str()), 1);
            },
        };
        if facts.is_directory {
            return match &source.reading {
                Reading::Listing(listing) => Preview::Ready(preview_directory(listing), 1),
                _ => Preview::NeedsListing,
            };
        }
        let extension = extension_of(source);
        if is_likely_binary(extension) {
            let raised = match extension {
                Some(e) => to_uppercase(e),
                None => to_uppercase(""),
            };
            let mut out: Vec<char> = Vec::new();
            append_str(&mut out, "Binary file (");
            append_str(&mut out, raised.as_str());
            append_str(&mut out, ")\nSize: ");
            append_str(&mut out, format_size(facts.size).as_str());
            assert(out@ =~= binary_summary(
                or_empty(text_of(source.extension)),
                facts.size as nat,
            ));
            return Preview::Ready(PreviewContent::Binary(string_of(&out)), 2);
        }
        if facts.size == 0 {
            return Preview::Ready(PreviewContent::Empty, 1);
        }
        if facts.size > MAX_PREVIEW_BYTES {
            let mut out: Vec<char> = Vec::new();
            append_str(&mut out, "File too large to preview (");
            append_str(&mut out, format_size(facts.size).as_str());
            append_str(&mut out, ")");
            assert(out@ =~= oversize_text(facts.size as nat));
            return Preview::Ready(PreviewContent::Text(string_of(&out)), 1);
        }
        match &source.reading {
            Reading::Content(Ok(content)) => {
                let (text, total) = self.preview_text(
                    source.name.as_str(),
                    extension,
                    content.as_str(),
                );
                Preview::Ready(PreviewContent::Text(text), total)
            },
            Reading::Content(Err(message)) => Preview::Ready(
                error_content(message.as_str()),
                1,
            ),
            _ => Preview::NeedsContent,
        }
    }

    /// Describes a file in one line; the empty text where its facts could
    /// not be read.
    pub fn file_info(&self, extension: Option<&str>, facts: &Result<FileFacts, String>) -> (info:
        String)
        ensures
            info@ == match facts {
                Ok(facts) => info_text(
                    match extension {
                        Some(e) => Some(e@),
                        None => None,
                    },
                    *facts,
                ),
                Err(_) => Seq::empty(),
            },
    {
        let facts = match facts {
            Ok(facts) => *facts,
            Err(_) => {
                return String::new();
            },
        };
        let mut out: Vec<char> = Vec::new();
        if let Some(e) = extension {
            append_str(&mut out, to_uppercase(e).as_str());
            append_str(&mut out, " | ");
        }
        append_str(&mut out, format_size(facts.size).as_str());
        if facts.is_symlink {
            append_str(&mut out, " | symlink");
        }
        assert(out@ =~= info_text(
            match extension {
                Some(e) => Some(e@),
                None => None,
            },
            facts,
        ));
        string_of(&out)
    }
}

} // verus!
