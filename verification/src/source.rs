//! Source files and spans into them.
use vstd::prelude::*;

verus! {

/// A file system path.
#[verifier::external_type_specification]
#[verifier::external_body]
pub struct ExPathBuf(std::path::PathBuf);

/// A borrowed file system path.
#[verifier::external_type_specification]
#[verifier::external_body]
pub struct ExPath(std::path::Path);

/// The path a path buffer holds, as `PathBuf::as_path` borrows it.
pub uninterp spec fn path_of(p: &std::path::PathBuf) -> &std::path::Path;

/// `PathBuf::as_path`: borrows the path the buffer holds, which is a function of the
/// buffer alone.
#[verifier::external_body]
pub(crate) fn path_buf_as_path(p: &std::path::PathBuf) -> (r: &std::path::Path)
    ensures
        r == path_of(p),
{
    p.as_path()
}

/// The text `Path::display` gives for a path: the path with any bytes that are not
/// UTF-8 replaced, a function of the path alone.
pub uninterp spec fn path_display_text(p: &std::path::Path) -> Seq<char>;

/// `Path::display`, formatted into a string.
#[verifier::external_body]
fn path_display(p: &std::path::Path) -> (r: String)
    ensures
        r@ == path_display_text(p),
{
    format!("{}", p.display())
}

/// Span (holds both span and a file path)
pub struct Span(pub Src, pub std::ops::Range<usize>);

/// Source (one source file)
pub struct Source(std::path::PathBuf, String);

impl Source {
    /// The file's path.
    pub closed spec fn spec_path(&self) -> std::path::PathBuf {
        self.0
    }

    /// The file's text.
    pub closed spec fn spec_content(&self) -> Seq<char> {
        self.1@
    }

    /// Path
    pub fn path(&self) -> (r: &std::path::Path)
        ensures
            r == path_of(&self.spec_path()),
    {
        path_buf_as_path(&self.0)
    }

    /// Content
    pub fn content(&self) -> (r: &str)
        ensures
            r@ == self.spec_content(),
    {
        self.1.as_str()
    }
}

/// Source ID
pub struct Src(std::sync::Arc<Source>);

impl Src {
    /// The source file this id stands for.
    pub closed spec fn source(&self) -> Source {
        *self.0
    }

    /// Create a new source
    pub fn new(path: std::path::PathBuf, content: String) -> (r: Self)
        ensures
            r.source().spec_path() == path,
            r.source().spec_content() == content@,
    {
        Src(std::sync::Arc::new(Source(path, content)))
    }

    /// The source file this id stands for.
    pub fn get(&self) -> (r: &Source)
        ensures
            *r == self.source(),
    {
        &*self.0
    }
}

/// Whether two path buffers are equal as `PathBuf == PathBuf` compares them: component
/// by component.
pub uninterp spec fn paths_equal(a: std::path::PathBuf, b: std::path::PathBuf) -> bool;

/// `PathBuf == PathBuf`: whether two paths are equal component by component, a
/// function of the two paths alone; a path is equal to itself.
#[verifier::external_body]
fn path_buf_eq(a: &std::path::PathBuf, b: &std::path::PathBuf) -> (r: bool)
    ensures
        r == paths_equal(*a, *b),
        *a == *b ==> r,
{
    a == b
}

impl Src {
    /// Whether two source ids refer to equal source files (same path, same text).
    pub fn same_file(&self, other: &Src) -> (r: bool)
        ensures
            r == (paths_equal(self.source().spec_path(), other.source().spec_path())
                && self.source().spec_content() == other.source().spec_content()),
            self.source() == other.source() ==> r,
    {
        path_buf_eq(&self.0.0, &other.0.0) && self.0.1 == other.0.1
    }

    /// Display text of the source: its path, as displayed.
    pub fn text(&self) -> (r: String)
        ensures
            r@ == path_display_text(path_of(&self.source().spec_path())),
    {
        path_display(self.0.path())
    }

    /// Another handle to the same source file.
    pub fn share(&self) -> (r: Src)
        ensures
            r.source() == self.source(),
    {
        Src(self.0.clone())
    }
}

impl Span {
    /// Start of the byte range.
    pub open spec fn start(&self) -> usize {
        self.1.start
    }

    /// End of the byte range.
    pub open spec fn end(&self) -> usize {
        self.1.end
    }

    /// A copy of this span.
    pub fn copy(&self) -> (r: Span)
        ensures
            r.0.source() == self.0.source(),
            r.start() == self.start(),
            r.end() == self.end(),
    {
        Span(self.0.share(), std::ops::Range { start: self.1.start, end: self.1.end })
    }

    /// Grow this span so that it also covers `other` (and everything in between).
    pub fn extend(&mut self, other: &Span)
        ensures
            final(self).0 == old(self).0,
            final(self).start() == if old(self).start() <= other.start() {
                old(self).start()
            } else {
                other.start()
            },
            final(self).end() == if old(self).end() >= other.end() {
                old(self).end()
            } else {
                other.end()
            },
    {
        if other.1.start < self.1.start {
            self.1.start = other.1.start;
        }
        if other.1.end > self.1.end {
            self.1.end = other.1.end;
        }
    }
}

} // verus!
