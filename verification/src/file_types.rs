//! The entries of the store: a text file, whose content is read on first
//! use, or an image, which is only a path.

use vstd::prelude::*;

verus! {

/// A text document. `content` is `None` until the backing file has been read.
#[derive(Debug, PartialEq, Eq)]
pub struct TextFile {
    pub path: String,
    pub content: Option<String>,
    pub dirty: bool,
}

/// An image: a path and a dirty flag, never a content.
#[derive(Debug, PartialEq, Eq)]
pub struct ImageFile {
    pub path: String,
    pub dirty: bool,
}

/// One stored item.
#[derive(Debug, PartialEq, Eq)]
pub enum FileType {
    Text(TextFile),
    Image(ImageFile),
}

/// What a [`TextFile`] holds, as plain values.
pub ghost struct TextFileView {
    pub path: Seq<char>,
    pub content: Option<Seq<char>>,
    pub dirty: bool,
}

/// What an [`ImageFile`] holds, as plain values.
pub ghost struct ImageFileView {
    pub path: Seq<char>,
    pub dirty: bool,
}

/// What a [`FileType`] holds, as plain values.
pub ghost enum FileView {
    Text(TextFileView),
    Image(ImageFileView),
}

/// The characters of an optional text.
pub open spec fn opt_view(text: Option<String>) -> Option<Seq<char>> {
    match text {
        Some(t) => Some(t@),
        None => None,
    }
}

/// The text that stands for a content that could not be read.
pub open spec fn placeholder() -> Seq<char> {
    seq!['?', '?', '?']
}

impl View for TextFile {
    type V = TextFileView;

    open spec fn view(&self) -> TextFileView {
        TextFileView { path: self.path@, content: opt_view(self.content), dirty: self.dirty }
    }
}

impl View for ImageFile {
    type V = ImageFileView;

    open spec fn view(&self) -> ImageFileView {
        ImageFileView { path: self.path@, dirty: self.dirty }
    }
}

impl View for FileType {
    type V = FileView;

    open spec fn view(&self) -> FileView {
        match self {
            FileType::Text(file) => FileView::Text(file@),
            FileType::Image(file) => FileView::Image(file@),
        }
    }
}

impl TextFileView {
    /// The file after a request for its content, and the text handed out.
    /// `disk` is what reading the backing file gave, `None` if that failed.
    /// A content already in memory is kept and `disk` is ignored.
    pub open spec fn fetched(self, disk: Option<Seq<char>>) -> (TextFileView, Seq<char>) {
        match self.content {
            Some(text) => (self, text),
            None => match disk {
                Some(text) => (TextFileView { content: Some(text), ..self }, text),
                None => (self, placeholder()),
            },
        }
    }
}

impl FileView {
    /// The backing path of the entry.
    pub open spec fn path(self) -> Seq<char> {
        match self {
            FileView::Text(file) => file.path,
            FileView::Image(file) => file.path,
        }
    }

    /// The dirty flag of the entry.
    pub open spec fn dirty(self) -> bool {
        match self {
            FileView::Text(file) => file.dirty,
            FileView::Image(file) => file.dirty,
        }
    }

    /// The same entry with its dirty flag set to `dirty`.
    pub open spec fn with_dirty(self, dirty: bool) -> FileView {
        match self {
            FileView::Text(file) => FileView::Text(TextFileView { dirty, ..file }),
            FileView::Image(file) => FileView::Image(ImageFileView { dirty, ..file }),
        }
    }

    /// The line that describes the entry.
    pub open spec fn description(self) -> Seq<char> {
        match self {
            FileView::Text(file) => "Displaying text file: "@ + debug_text(file.content),
            FileView::Image(file) => "Displaying image file from path: "@ + file.path,
        }
    }
}

/// What std's `{:?}` prints for an optional text: `None`, or `Some(..)`
/// around the quoted text with its escapes.
pub uninterp spec fn debug_text(content: Option<Seq<char>>) -> Seq<char>;

/// Formats an optional text with std's `Debug`. The result depends on the
/// text alone; the contract names it and says nothing more of it.
#[verifier::external_body]
fn debug_format(content: &Option<String>) -> (line: String)
    ensures
        line@ == debug_text(opt_view(*content)),
{
    format!("{:?}", content)
}

impl TextFile {
    /// Sets the dirty flag, and nothing else.
    pub fn set_dirty(&mut self, dirty: bool)
        ensures
            final(self)@ == (TextFileView { dirty, ..old(self)@ }),
    {
        self.dirty = dirty;
    }

    /// The dirty flag.
    pub fn is_dirty(&self) -> (dirty: bool)
        ensures
            dirty == self@.dirty,
    {
        self.dirty
    }

    /// The line that describes the file, for the caller to print.
    pub fn display(&self) -> (line: String)
        ensures
            line@ == FileView::Text(self@).description(),
    {
        let shown = debug_format(&self.content);
        String::from_str("Displaying text file: ").concat(shown.as_str())
    }

    /// The content of the file. Where it is not in memory yet, `disk` is
    /// taken for it: the text read from the backing file, or `None` if the
    /// read failed, in which case the placeholder is returned and nothing is
    /// kept.
    pub fn get_contents(&mut self, disk: Option<String>) -> (text: String)
        ensures
            (final(self)@, text@) == old(self)@.fetched(opt_view(disk)),
    {
        match &self.content {
            Some(content) => content.clone(),
            None => match disk {
                Some(read) => {
                    let text = read.clone();
                    self.content = Some(read);
                    text
                },
                None => {
                    proof {
                        reveal_strlit("???");
                    }
                    let text = String::from_str("???");
                    assert(text@ =~= placeholder());
                    text
                },
            },
        }
    }
}

impl ImageFile {
    /// Sets the dirty flag, and nothing else.
    pub fn set_dirty(&mut self, dirty: bool)
        ensures
            final(self)@ == (ImageFileView { dirty, ..old(self)@ }),
    {
        self.dirty = dirty;
    }

    /// The dirty flag.
    pub fn is_dirty(&self) -> (dirty: bool)
        ensures
            dirty == self@.dirty,
    {
        self.dirty
    }

    /// The line that describes the image, for the caller to print.
    pub fn display(&self) -> (line: String)
        ensures
            line@ == FileView::Image(self@).description(),
    {
        String::from_str("Displaying image file from path: ").concat(self.path.as_str())
    }
}

impl FileType {
    /// The line that describes the entry, for the caller to print.
    pub fn display(&self) -> (line: String)
        ensures
            line@ == self@.description(),
    {
        match self {
            FileType::Text(file) => file.display(),
            FileType::Image(file) => file.display(),
        }
    }

    /// Sets the dirty flag of the entry, and nothing else.
    pub fn set_dirty(&mut self, dirty: bool)
        ensures
            final(self)@ == old(self)@.with_dirty(dirty),
    {
        match self {
            FileType::Text(file) => file.set_dirty(dirty),
            FileType::Image(file) => file.set_dirty(dirty),
        }
    }

    /// The backing path of the entry. The entry is not changed.
    pub fn get_path(&mut self) -> (path: String)
        ensures
            path@ == old(self)@.path(),
            *final(self) == *old(self),
    {
        match self {
            FileType::Text(file) => file.path.clone(),
            FileType::Image(file) => file.path.clone(),
        }
    }

    /// The dirty flag of the entry.
    pub fn is_dirty(&self) -> (dirty: bool)
        ensures
            dirty == self@.dirty(),
    {
        match self {
            FileType::Text(file) => file.is_dirty(),
            FileType::Image(file) => file.is_dirty(),
        }
    }
}

} // verus!
