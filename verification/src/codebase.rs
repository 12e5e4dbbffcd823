//! The codebase: interned names and source files.
use crate::text::{dec_nat, push_dec, push_str};
use string_interner::Symbol as _;
use vstd::prelude::*;

verus! {

broadcast use {vstd::std_specs::vec::group_vec_axioms, vstd::seq::group_seq_axioms};

/// A string interner (`string_interner`'s default one), held whole: Verus sees none of
/// its fields.
#[verifier::external_body]
pub struct Interner {
    inner: string_interner::DefaultStringInterner,
}

/// The strings an interner holds, in the order they were first interned: the string
/// of the symbol with index `k` is the `k`-th.
pub uninterp spec fn interned_strings(i: Interner) -> Seq<Seq<char>>;

/// `StringInterner::new`: an interner that holds no string.
#[verifier::external_body]
fn interner_new() -> (r: Interner)
    ensures
        interned_strings(r) == Seq::<Seq<char>>::empty(),
{
    Interner { inner: string_interner::DefaultStringInterner::new() }
}

/// `StringInterner::get_or_intern`, the symbol taken by its index: a string the
/// interner holds keeps its symbol, a new one is appended and gets the next index.
/// The interner panics when a new string would need the index `u32::MAX`.
#[verifier::external_body]
fn interner_get_or_intern(i: &mut Interner, s: &str) -> (r: u32)
    requires
        interned_strings(*old(i)).contains(s@) || interned_strings(*old(i)).len() < u32::MAX,
    ensures
        interned_strings(*old(i)).contains(s@) ==> interned_strings(*final(i)) == interned_strings(
            *old(i),
        ),
        !interned_strings(*old(i)).contains(s@) ==> interned_strings(*final(i)) == interned_strings(
            *old(i),
        ).push(s@),
        r < interned_strings(*final(i)).len(),
        interned_strings(*final(i))[r as int] == s@,
{
    i.inner.get_or_intern(s).to_usize() as u32
}

/// `StringInterner::get`: the index of the symbol of `s` if the interner holds `s`.
#[verifier::external_body]
fn interner_get(i: &Interner, s: &str) -> (r: Option<u32>)
    ensures
        r is Some <==> interned_strings(*i).contains(s@),
        r matches Some(k) ==> k < interned_strings(*i).len() && interned_strings(*i)[k as int] == s@,
{
    match i.inner.get(s) {
        Some(sym) => Some(sym.to_usize() as u32),
        None => None,
    }
}

/// `StringInterner::len`: the number of strings the interner holds.
#[verifier::external_body]
fn interner_len(i: &Interner) -> (r: usize)
    ensures
        r == interned_strings(*i).len(),
{
    i.inner.len()
}

/// `StringInterner::resolve` of the symbol with index `index`: the string of that
/// symbol when the interner holds one, else `None`.
#[verifier::external_body]
fn interner_resolve(i: &Interner, index: u32) -> (r: Option<&str>)
    requires
        index < u32::MAX,
    ensures
        r is Some <==> (index as int) < interned_strings(*i).len(),
        r matches Some(t) ==> t@ == interned_strings(*i)[index as int],
{
    i.inner.resolve(string_interner::symbol::SymbolU32::try_from_usize(index as usize).unwrap())
}

/// A symbol inside of the codebase's string interner: the index of an interned string.
#[derive(Clone, Copy, Debug, PartialEq, Eq, Structural, PartialOrd, Ord, Hash)]
pub struct Symbol {
    index: u32,
}

impl Symbol {
    #[verifier::type_invariant]
    spec fn fits(self) -> bool {
        self.index < u32::MAX
    }

    /// The index of the interned string.
    pub closed spec fn index(self) -> nat {
        self.index as nat
    }

    /// The symbol for index `index`, which is taken modulo 2^32; `None` where that is
    /// `u32::MAX`, the one index no symbol has.
    pub fn try_from_usize(index: usize) -> (r: Option<Symbol>)
        ensures
            r is Some <==> (index as u32) != u32::MAX,
            r matches Some(s) ==> s.index() == (index as u32) as nat,
    {
        let index = index as u32;
        if index == u32::MAX {
            None
        } else {
            Some(Symbol { index })
        }
    }

    /// The index of the interned string.
    pub fn to_usize(self) -> (r: usize)
        ensures
            r == self.index(),
    {
        self.index as usize
    }
}

/// No string is interned twice.
pub open spec fn all_distinct(s: Seq<Seq<char>>) -> bool {
    forall|i: int, j: int| 0 <= i < j < s.len() ==> s[i] != s[j]
}

/// Positions just past each `\n` among the first `k` bytes.
pub open spec fn newline_ends(b: Seq<u8>, k: nat) -> Seq<usize>
    decreases k,
{
    if k == 0 || k > b.len() {
        Seq::empty()
    } else {
        newline_ends(b, (k - 1) as nat) + if b[k - 1] == 10 {
            seq![k as usize]
        } else {
            Seq::empty()
        }
    }
}

/// Byte offsets at which the lines of a text start: 0, then the position just past
/// each `\n`.
pub open spec fn line_starts_of(b: Seq<u8>) -> Seq<usize> {
    seq![0usize] + newline_ends(b, b.len())
}

/// The bytes of a text in UTF-8.
pub open spec fn utf8(s: Seq<char>) -> Seq<u8> {
    vstd::utf8::encode_utf8(s)
}

/// `codespan_reporting::files::line_starts`: the byte offsets at which the lines of
/// `source` start, 0 and then the position just past each `\n`.
#[verifier::external_body]
fn line_starts(source: &str) -> (r: Vec<usize>)
    ensures
        r@ == line_starts_of(utf8(source@)),
{
    codespan_reporting::files::line_starts(source).collect()
}

/// `<[usize]>::binary_search` on a sorted slice: `Ok` with the index of an element
/// equal to `x`, or `Err` with the index where `x` would go to keep the order.
#[verifier::external_body]
fn binary_search(s: &[usize], x: usize) -> (r: Result<usize, usize>)
    requires
        forall|i: int, j: int| 0 <= i <= j < s@.len() ==> s@[i] <= s@[j],
    ensures
        r matches Ok(i) ==> i < s@.len() && s@[i as int] == x,
        r matches Err(i) ==> i <= s@.len() && (forall|j: int| 0 <= j < i ==> s@[j] < x) && (
        forall|j: int| i <= j < s@.len() ==> x < s@[j]),
{
    s.binary_search(&x)
}

proof fn lemma_newline_ends(b: Seq<u8>, k: nat)
    requires
        b.len() <= usize::MAX,
    ensures
        forall|i: int, j: int|
            0 <= i < j < newline_ends(b, k).len() ==> newline_ends(b, k)[i] < newline_ends(
                b,
                k,
            )[j],
        forall|i: int|
            0 <= i < newline_ends(b, k).len() ==> 0 < newline_ends(b, k)[i] <= k && newline_ends(
                b,
                k,
            )[i] <= b.len(),
        newline_ends(b, k).len() <= k,
        forall|i: int| 0 <= i < newline_ends(b, k).len() ==> newline_ends(b, k)[i] >= i + 1,
    decreases k,
{
    if k > 0 && k <= b.len() {
        lemma_newline_ends(b, (k - 1) as nat);
        let prev = newline_ends(b, (k - 1) as nat);
        let cur = newline_ends(b, k);
        assert forall|i: int| 0 <= i < prev.len() implies cur[i] == prev[i] by {}
    }
}

/// The line starts of a text rise strictly, begin at 0 and end within the text.
pub proof fn lemma_line_starts_increase(b: Seq<u8>)
    requires
        b.len() <= usize::MAX,
    ensures
        line_starts_of(b).len() >= 1,
        line_starts_of(b)[0] == 0,
        forall|i: int, j: int|
            0 <= i < j < line_starts_of(b).len() ==> line_starts_of(b)[i] < line_starts_of(b)[j],
        forall|i: int| 0 <= i < line_starts_of(b).len() ==> line_starts_of(b)[i] <= b.len(),
        forall|i: int| 0 <= i < line_starts_of(b).len() ==> line_starts_of(b)[i] >= i,
{
    lemma_newline_ends(b, b.len());
    let ls = line_starts_of(b);
    let ne = newline_ends(b, b.len());
    assert forall|i: int, j: int| 0 <= i < j < ls.len() implies ls[i] < ls[j] by {
        if i > 0 {
            assert(ls[i] == ne[i - 1]);
        }
        assert(ls[j] == ne[j - 1]);
    }
    assert forall|i: int| 0 <= i < ls.len() implies ls[i] <= b.len() && ls[i] >= i by {
        if i > 0 {
            assert(ls[i] == ne[i - 1]);
        }
    }
}

/// An error looking something up in the files of the codebase.
#[derive(Clone, Copy, Debug, PartialEq, Eq, Structural)]
pub enum FileError {
    /// A required file is not in the file database.
    FileMissing,
    /// The file is present, but does not contain the specified line index.
    LineTooLarge { given: usize, max: usize },
}

/// A source file
pub struct File {
    path: std::path::PathBuf,
    source: String,
    line_starts: Vec<usize>,
}

/// A wrapped Path
pub struct FileName<'a>(pub &'a std::path::Path);

impl File {
    #[verifier::type_invariant]
    spec fn starts_match(self) -> bool {
        &&& self.line_starts@ == line_starts_of(utf8(self.source@))
        &&& utf8(self.source@).len() <= usize::MAX
    }

    /// The file's path.
    pub closed spec fn spec_path(&self) -> std::path::PathBuf {
        self.path
    }

    /// The file's text.
    pub closed spec fn spec_source(&self) -> Seq<char> {
        self.source@
    }

    /// Byte offsets at which the lines of the file start.
    pub open spec fn line_starts(&self) -> Seq<usize> {
        line_starts_of(utf8(self.spec_source()))
    }

    /// Length of the file's text in bytes.
    pub open spec fn byte_len(&self) -> nat {
        utf8(self.spec_source()).len()
    }

    /// Create a new source file.
    pub fn new(path: std::path::PathBuf, source: String) -> (r: File)
        ensures
            r.spec_path() == path,
            r.spec_source() == source@,
    {
        let line_starts = line_starts(source.as_str());
        let byte_len = source.as_str().as_bytes().len();
        assert(utf8(source@).len() == byte_len);
        File { path, source, line_starts }
    }

    /// The file's name: its path.
    pub fn name(&self) -> (r: FileName<'_>)
        ensures
            r.0 == crate::source::path_of(&self.spec_path()),
    {
        FileName(crate::source::path_buf_as_path(&self.path))
    }

    /// The file's text.
    pub fn source(&self) -> (r: &str)
        ensures
            r@ == self.spec_source(),
    {
        self.source.as_str()
    }

    /// Where the line with the given index starts, in bytes: the start of one of the
    /// file's lines, the length of the text just past the last one, an error beyond.
    pub open spec fn spec_line_start(&self, line_index: int) -> Result<usize, FileError> {
        let ls = self.line_starts();
        if line_index < ls.len() {
            Ok(ls[line_index])
        } else if line_index == ls.len() {
            Ok(self.byte_len() as usize)
        } else {
            Err(FileError::LineTooLarge { given: line_index as usize, max: (ls.len() - 1) as usize })
        }
    }

    /// Return the starting byte index of the line with the specified line index.
    /// Convenience method that already generates errors if necessary.
    pub fn line_start(&self, line_index: usize) -> (r: Result<usize, FileError>)
        ensures
            r == self.spec_line_start(line_index as int),
    {
        proof {
            use_type_invariant(self);
            lemma_line_starts_increase(utf8(self.source@));
        }
        let n = self.line_starts.len();
        if line_index < n {
            Ok(self.line_starts[line_index])
        } else if line_index == n {
            Ok(self.source.as_str().len())
        } else {
            Err(FileError::LineTooLarge { given: line_index, max: n - 1 })
        }
    }

    /// Line `k` is the line of byte `b`: it starts at or before `b`, and the next line
    /// (if any) starts after it.
    pub open spec fn is_line_of(&self, k: int, b: int) -> bool {
        let ls = self.line_starts();
        &&& 0 <= k < ls.len()
        &&& ls[k] <= b
        &&& k + 1 < ls.len() ==> b < ls[k + 1]
    }

    /// The index of the line that holds byte `byte_index`.
    pub fn line_index(&self, byte_index: usize) -> (r: usize)
        ensures
            self.is_line_of(r as int, byte_index as int),
    {
        proof {
            use_type_invariant(self);
            lemma_line_starts_increase(utf8(self.source@));
        }
        match binary_search(self.line_starts.as_slice(), byte_index) {
            Ok(i) => i,
            Err(next) => next - 1,
        }
    }

    /// The byte range of the line with the given index: from its start to the start of
    /// the next.
    pub open spec fn spec_line_range(&self, line_index: int) -> Result<(usize, usize), FileError> {
        if line_index >= usize::MAX {
            Err(
                FileError::LineTooLarge {
                    given: line_index as usize,
                    max: (self.line_starts().len() - 1) as usize,
                },
            )
        } else {
            match self.spec_line_start(line_index) {
            Ok(start) => match self.spec_line_start(line_index + 1) {
                Ok(end) => Ok((start, end)),
                Err(e) => Err(e),
            },
            Err(e) => Err(e),
        }
        }
    }

    /// The byte range of the line with the given index.
    pub fn line_range(&self, line_index: usize) -> (r: Result<std::ops::Range<usize>, FileError>)
        ensures
            match (r, self.spec_line_range(line_index as int)) {
                (Ok(range), Ok((start, end))) => range.start == start && range.end == end,
                (Err(e), Err(f)) => e == f,
                _ => false,
            },
    {
        if line_index == usize::MAX {
            proof {
                use_type_invariant(self);
            }
            return Err(FileError::LineTooLarge { given: line_index, max: self.line_starts.len() - 1 });
        }
        let line_start = match self.line_start(line_index) {
            Ok(s) => s,
            Err(e) => return Err(e),
        };
        let next_line_start = match self.line_start(line_index + 1) {
            Ok(s) => s,
            Err(e) => return Err(e),
        };
        Ok(line_start..next_line_start)
    }
}

/// The line that holds a byte of the text spans that byte: it starts at or before it,
/// and ends after it.
pub proof fn law_line_range_holds_byte(file: &File, b: int, k: int)
    requires
        file.byte_len() <= usize::MAX,
        0 <= b < file.byte_len(),
        file.is_line_of(k, b),
    ensures
        file.spec_line_range(k) matches Ok((start, end)) && start <= b < end,
{
    lemma_line_starts_increase(utf8(file.spec_source()));
}

/// Codebase, holds string interner and all the source files.
pub struct Codebase {
    interner: Interner,
    files: Vec<File>,
}

impl Codebase {
    /// The interned strings, in the order they were first interned.
    pub closed spec fn strings(&self) -> Seq<Seq<char>> {
        interned_strings(self.interner)
    }

    /// The source files, by id.
    pub closed spec fn files(&self) -> Seq<File> {
        self.files@
    }

    /// The codebase is well formed: no string is interned twice, and there are no
    /// more of them than symbols can index.
    pub open spec fn wf(&self) -> bool {
        all_distinct(self.strings()) && self.strings().len() <= u32::MAX
    }

    /// Create a new codebase.
    pub fn new() -> (r: Codebase)
        ensures
            r.wf(),
            r.strings() == Seq::<Seq<char>>::empty(),
            r.files() == Seq::<File>::empty(),
    {
        Codebase { interner: interner_new(), files: Vec::new() }
    }

    /// Intern a symbol or (if exists) get it's interned version
    pub fn interned(&mut self, symbol: &str) -> (r: Symbol)
        requires
            old(self).wf(),
            old(self).strings().contains(symbol@) || old(self).strings().len() < u32::MAX,
        ensures
            final(self).wf(),
            old(self).strings().contains(symbol@) ==> final(self).strings() == old(
                self,
            ).strings(),
            !old(self).strings().contains(symbol@) ==> final(self).strings() == old(
                self,
            ).strings().push(symbol@),
            r.index() < final(self).strings().len(),
            final(self).strings()[r.index() as int] == symbol@,
            final(self).files() == old(self).files(),
    {
        let index = interner_get_or_intern(&mut self.interner, symbol);
        proof {
            let s = self.strings();
            if !old(self).strings().contains(symbol@) {
                assert forall|i: int, j: int| 0 <= i < j < s.len() implies s[i] != s[j] by {
                    if j == s.len() - 1 {
                        assert(s[j] == symbol@);
                        assert(old(self).strings()[i] == s[i]);
                    } else {
                        assert(old(self).strings()[i] == s[i]);
                        assert(old(self).strings()[j] == s[j]);
                    }
                }
            }
        }
        Symbol { index }
    }

    /// The symbol of `symbol` if it is interned, without interning it.
    pub fn get_interned(&self, symbol: &str) -> (r: Option<Symbol>)
        requires
            self.wf(),
        ensures
            r is Some <==> self.strings().contains(symbol@),
            r matches Some(s) ==> s.index() < self.strings().len() && self.strings()[s.index() as int]
                == symbol@,
    {
        match interner_get(&self.interner, symbol) {
            Some(index) => Some(Symbol { index }),
            None => None,
        }
    }

    /// The number of interned strings.
    pub fn interned_count(&self) -> (r: usize)
        ensures
            r == self.strings().len(),
    {
        interner_len(&self.interner)
    }

    /// The string of `symbol`, if it names an interned string.
    pub fn lookup_symbol(&self, symbol: Symbol) -> (r: Option<String>)
        ensures
            r is Some <==> symbol.index() < self.strings().len(),
            r matches Some(s) ==> s@ == self.strings()[symbol.index() as int],
    {
        proof {
            use_type_invariant(&symbol);
        }
        match interner_resolve(&self.interner, symbol.index) {
            Some(s) => Some(s.to_owned()),
            None => None,
        }
    }

    /// The text a symbol resolves to: its interned string, or `<error>` where it names
    /// none.
    pub open spec fn spec_resolve(&self, symbol: Symbol) -> Seq<char> {
        if symbol.index() < self.strings().len() {
            self.strings()[symbol.index() as int]
        } else {
            "<error>"@
        }
    }

    /// Resolve a symbol to a string: `<error>` where it names no interned string.
    pub fn resolve_symbol(&self, symbol: Symbol) -> (r: String)
        ensures
            r@ == self.spec_resolve(symbol),
    {
        match self.lookup_symbol(symbol) {
            Some(s) => s,
            None => "<error>".to_owned(),
        }
    }
}

/// The note that goes with a report of a symbol that could not be resolved.
pub open spec fn unresolved_note(symbol: Symbol) -> Seq<char> {
    "Symbol: "@ + dec_nat(symbol.index())
}

/// The note that goes with a report of a symbol that could not be resolved: its index.
pub fn unresolved_symbol_note(symbol: Symbol) -> (r: String)
    ensures
        r@ == unresolved_note(symbol),
{
    let mut out = String::new();
    push_str(&mut out, "Symbol: ");
    push_dec(&mut out, symbol.to_usize() as u64);
    assert(out@ =~= unresolved_note(symbol));
    out
}

/// The note that goes with a report of a file id that names no file.
pub open spec fn missing_note(file_id: usize) -> Seq<char> {
    "File: "@ + dec_nat(file_id as nat)
}

/// The note that goes with a report of a file id that names no file: the id.
pub fn missing_file_note(file_id: usize) -> (r: String)
    ensures
        r@ == missing_note(file_id),
{
    let mut out = String::new();
    push_str(&mut out, "File: ");
    push_dec(&mut out, file_id as u64);
    assert(out@ =~= missing_note(file_id));
    out
}

impl Codebase {
    /// Add a new source file to the codebase, providing the source code manually;
    /// returns its id.
    pub fn add_file(&mut self, path: std::path::PathBuf, source: String) -> (r: usize)
        ensures
            r == old(self).files().len(),
            final(self).files().len() == old(self).files().len() + 1,
            final(self).files().take(r as int) == old(self).files(),
            final(self).files()[r as int].spec_path() == path,
            final(self).files()[r as int].spec_source() == source@,
            final(self).strings() == old(self).strings(),
    {
        let file = File::new(path, source);
        self.files.push(file);
        assert(self.files@.take(self.files@.len() - 1) =~= old(self).files@);
        self.files.len() - 1
    }

    /// Get the file corresponding to the given id.
    pub fn get_file(&self, file_id: usize) -> (r: Result<&File, FileError>)
        ensures
            file_id < self.files().len() ==> r == Ok::<&File, FileError>(&self.files()[file_id as int]),
            file_id >= self.files().len() ==> r == Err::<&File, FileError>(FileError::FileMissing),
    {
        if file_id < self.files.len() {
            Ok(&self.files[file_id])
        } else {
            Err(FileError::FileMissing)
        }
    }

    /// The name of the file with the given id.
    pub fn name(&self, file_id: usize) -> (r: Result<FileName<'_>, FileError>)
        ensures
            r is Ok <==> file_id < self.files().len(),
            r matches Ok(n) ==> n.0 == crate::source::path_of(&self.files()[file_id as int].spec_path()),
            r matches Err(e) ==> e == FileError::FileMissing,
    {
        match self.get_file(file_id) {
            Ok(file) => Ok(file.name()),
            Err(e) => Err(e),
        }
    }

    /// The source text of the file with the given id.
    pub fn source(&self, file_id: usize) -> (r: Result<&str, FileError>)
        ensures
            file_id < self.files().len() ==> (r matches Ok(s) && s@ == self.files()[file_id as int].spec_source()),
            file_id >= self.files().len() ==> r == Err::<&str, FileError>(FileError::FileMissing),
    {
        match self.get_file(file_id) {
            Ok(file) => Ok(file.source()),
            Err(e) => Err(e),
        }
    }

    /// The index of the line that holds byte `byte_index` of the file with the given id.
    pub fn line_index(&self, file_id: usize, byte_index: usize) -> (r: Result<usize, FileError>)
        ensures
            file_id < self.files().len() ==> (r matches Ok(k) && self.files()[file_id as int].is_line_of(
                k as int,
                byte_index as int,
            )),
            file_id >= self.files().len() ==> r == Err::<usize, FileError>(FileError::FileMissing),
    {
        match self.get_file(file_id) {
            Ok(file) => Ok(file.line_index(byte_index)),
            Err(e) => Err(e),
        }
    }

    /// The byte range of line `line_index` of the file with the given id.
    pub fn line_range(&self, file_id: usize, line_index: usize) -> (r: Result<
        std::ops::Range<usize>,
        FileError,
    >)
        ensures
            file_id >= self.files().len() ==> (r matches Err(e) && e == FileError::FileMissing),
            file_id < self.files().len() ==> match (
                r,
                self.files()[file_id as int].spec_line_range(line_index as int),
            ) {
                (Ok(range), Ok((start, end))) => range.start == start && range.end == end,
                (Err(e), Err(f)) => e == f,
                _ => false,
            },
    {
        match self.get_file(file_id) {
            Ok(file) => file.line_range(line_index),
            Err(e) => Err(e),
        }
    }
}


/// There is a `::` at position `i` of `s`.
pub open spec fn sep_at(s: Seq<char>, i: int) -> bool {
    0 <= i && i + 1 < s.len() && s[i] == ':' && s[i + 1] == ':'
}

/// Position of the first `::` at or after `from`, if any.
pub open spec fn sep_from(s: Seq<char>, from: int) -> Option<int>
    decreases s.len() - from,
{
    if from < 0 || from + 1 >= s.len() {
        None
    } else if sep_at(s, from) {
        Some(from)
    } else {
        sep_from(s, from + 1)
    }
}

pub proof fn lemma_sep_from(s: Seq<char>, from: int)
    requires
        0 <= from,
    ensures
        sep_from(s, from) matches Some(i) ==> from <= i && sep_at(s, i) && forall|j: int|
            from <= j < i ==> !sep_at(s, j),
        sep_from(s, from) is None ==> forall|j: int| from <= j ==> !sep_at(s, j),
    decreases s.len() - from,
{
    if from + 1 < s.len() && !sep_at(s, from) {
        lemma_sep_from(s, from + 1);
    }
}

/// The pieces of `s` from `from` on between the occurrences of `::`, taken from the left.
pub open spec fn split_from(s: Seq<char>, from: int) -> Seq<Seq<char>>
    decreases s.len() - from,
{
    if from < 0 || from > s.len() {
        Seq::empty()
    } else {
        match sep_from(s, from) {
            Some(i) => {
                proof {
                    lemma_sep_from(s, from);
                }
                seq![s.subrange(from, i)] + split_from(s, i + 2)
            },
            None => seq![s.subrange(from, s.len() as int)],
        }
    }
}

/// The segments of a path written with `::` between them.
pub open spec fn split_path(s: Seq<char>) -> Seq<Seq<char>> {
    split_from(s, 0)
}

/// The segments joined back, with `::` between each two.
pub open spec fn join_path(parts: Seq<Seq<char>>) -> Seq<char>
    decreases parts.len(),
{
    if parts.len() == 0 {
        Seq::empty()
    } else if parts.len() == 1 {
        parts[0]
    } else {
        parts[0] + "::"@ + join_path(parts.drop_first())
    }
}

proof fn lemma_split_from(s: Seq<char>, from: int)
    requires
        0 <= from <= s.len(),
    ensures
        split_from(s, from).len() >= 1,
        join_path(split_from(s, from)) == s.subrange(from, s.len() as int),
        forall|k: int|
            0 <= k < split_from(s, from).len() ==> sep_from(#[trigger] split_from(s, from)[k], 0) is None,
    decreases s.len() - from,
{
    reveal_strlit("::");
    lemma_sep_from(s, from);
    match sep_from(s, from) {
        Some(i) => {
            lemma_split_from(s, i + 2);
            let rest = split_from(s, i + 2);
            let all = split_from(s, from);
            assert(all.drop_first() =~= rest);
            assert(s.subrange(from, s.len() as int) =~= s.subrange(from, i) + "::"@ + s.subrange(
                i + 2,
                s.len() as int,
            ));
            let first = s.subrange(from, i);
            lemma_sep_from(first, 0);
            if sep_from(first, 0) is Some {
                let j = sep_from(first, 0).unwrap();
                assert(sep_at(s, from + j));
            }
            assert forall|k: int| 0 <= k < all.len() implies sep_from(#[trigger] all[k], 0) is None by {
                if k > 0 {
                    assert(all[k] == rest[k - 1]);
                }
            }
        },
        None => {
            let piece = s.subrange(from, s.len() as int);
            lemma_sep_from(piece, 0);
            if sep_from(piece, 0) is Some {
                let j = sep_from(piece, 0).unwrap();
                assert(sep_at(s, from + j));
            }
        },
    }
}

/// Splitting a path at its `::`s and joining the segments with `::` gives the path
/// back; there is at least one segment, and no segment holds a `::`.
pub proof fn law_split_join(s: Seq<char>)
    ensures
        split_path(s).len() >= 1,
        join_path(split_path(s)) == s,
        forall|k: int| 0 <= k < split_path(s).len() ==> sep_from(#[trigger] split_path(s)[k], 0) is None,
{
    lemma_split_from(s, 0);
    assert(s.subrange(0, s.len() as int) =~= s);
}

/// The interned strings after interning each of `pieces` in turn: a string already
/// held stays where it is, a new one is appended.
pub open spec fn interned_after(strings: Seq<Seq<char>>, pieces: Seq<Seq<char>>) -> Seq<Seq<char>>
    decreases pieces.len(),
{
    if pieces.len() == 0 {
        strings
    } else {
        let before = interned_after(strings, pieces.drop_last());
        if before.contains(pieces.last()) {
            before
        } else {
            before.push(pieces.last())
        }
    }
}

/// Interning a prefix of the pieces leaves a prefix of what interning all of them
/// leaves.
proof fn lemma_interned_after_prefix(strings: Seq<Seq<char>>, pieces: Seq<Seq<char>>, k: int)
    requires
        0 <= k <= pieces.len(),
    ensures
        interned_after(strings, pieces.take(k)).len() <= interned_after(strings, pieces).len(),
    decreases pieces.len(),
{
    if k < pieces.len() {
        assert(pieces.drop_last().take(k) =~= pieces.take(k));
        lemma_interned_after_prefix(strings, pieces.drop_last(), k);
    } else {
        assert(pieces.take(k) =~= pieces);
    }
}

impl Codebase {
    /// Parse a string path into a vector of symbols: the segments between the `::`s,
    /// each interned.
    pub fn parse_path(&mut self, path: &str) -> (r: Vec<Symbol>)
        requires
            old(self).wf(),
            interned_after(old(self).strings(), split_path(path@)).len() <= u32::MAX,
        ensures
            final(self).wf(),
            final(self).files() == old(self).files(),
            final(self).strings() == interned_after(old(self).strings(), split_path(path@)),
            final(self).strings().take(old(self).strings().len() as int) == old(self).strings(),
            r@.len() == split_path(path@).len(),
            forall|k: int|
                0 <= k < r@.len() ==> (#[trigger] r@[k]).index() < final(self).strings().len()
                    && final(self).strings()[r@[k].index() as int] == split_path(path@)[k],
    {
        let ghost s = path@;
        let n = path.unicode_len();
        let mut out: Vec<Symbol> = Vec::new();
        let mut start: usize = 0;
        let mut i: usize = 0;
        proof {
            lemma_split_from(s, 0);
            assert(old(self).strings().take(old(self).strings().len() as int) =~= old(self).strings());
            assert(split_path(s).take(0) =~= Seq::<Seq<char>>::empty());
        }
        while n - i > 1
            invariant
                n == s.len(),
                self.strings().len() >= old(self).strings().len(),
                s == path@,
                start <= i <= n,
                self.wf(),
                self.files() == old(self).files(),
                self.strings().take(old(self).strings().len() as int) == old(self).strings(),
                self.strings() == interned_after(old(self).strings(), split_path(s).take(out@.len() as int)),
                interned_after(old(self).strings(), split_path(s)).len() <= u32::MAX,
                sep_from(s, start as int) == sep_from(s, i as int),
                split_path(s) == split_path(s).take(out@.len() as int) + split_from(s, start as int),
                out@.len() < split_path(s).len(),
                forall|k: int|
                    0 <= k < out@.len() ==> (#[trigger] out@[k]).index() < self.strings().len()
                        && self.strings()[out@[k].index() as int] == split_path(s)[k],
            decreases n - i,
        {
            if path.get_char(i) == ':' && path.get_char(i + 1) == ':' {
                proof {
                    assert(sep_at(s, i as int));
                    assert(sep_from(s, i as int) == Some(i as int));
                    lemma_split_from(s, i + 2);
                    assert(split_from(s, start as int) == seq![s.subrange(start as int, i as int)]
                        + split_from(s, i + 2));
                }
                let piece = path.substring_char(start, i);
                let ghost before = self.strings();
                proof {
                    let k = out@.len() as int;
                    assert(split_path(s)[k] == s.subrange(start as int, i as int));
                    assert(split_path(s).take(k + 1).drop_last() =~= split_path(s).take(k));
                    lemma_interned_after_prefix(old(self).strings(), split_path(s), k + 1);
                }
                let sym = self.interned(piece);
                proof {
                    let done = split_path(s).take(out@.len() as int);
                    assert(split_path(s)[out@.len() as int] == s.subrange(start as int, i as int));
                    assert(split_path(s).take(out@.len() as int + 1) =~= done.push(s.subrange(start as int, i as int)));
                    assert(split_path(s) =~= split_path(s).take(out@.len() as int + 1) + split_from(s, i + 2));
                    assert(self.strings().take(before.len() as int) =~= before);
                    assert(before.take(old(self).strings().len() as int) == old(self).strings());
                    assert(self.strings().take(old(self).strings().len() as int) =~= before.take(old(self).strings().len() as int));
                    assert forall|k: int| 0 <= k < out@.len() implies (#[trigger] out@[k]).index() < self.strings().len()
                        && self.strings()[out@[k].index() as int] == split_path(s)[k] by {
                        assert(before[out@[k].index() as int] == self.strings()[out@[k].index() as int]);
                    }
                    lemma_split_from(s, i + 2);
                }
                out.push(sym);
                i = i + 2;
                start = i;
            } else {
                proof {
                    assert(!sep_at(s, i as int));
                }
                i = i + 1;
            }
        }
        proof {
            lemma_sep_from(s, i as int);
            if sep_from(s, i as int) is Some {
                let j = sep_from(s, i as int).unwrap();
                assert(sep_at(s, j));
            }
            assert(split_from(s, start as int) == seq![s.subrange(start as int, n as int)]);
            assert(split_path(s)[out@.len() as int] == s.subrange(start as int, n as int));
            assert(split_path(s).len() == out@.len() + 1);
        }
        let piece = path.substring_char(start, n);
        let ghost before = self.strings();
        proof {
            let k = out@.len() as int;
            assert(split_path(s).take(k + 1) =~= split_path(s));
            assert(split_path(s).take(k + 1).drop_last() =~= split_path(s).take(k));
        }
        let sym = self.interned(piece);
        proof {
            assert(self.strings().take(before.len() as int) =~= before);
            assert(before.take(old(self).strings().len() as int) == old(self).strings());
            assert(self.strings().take(old(self).strings().len() as int) =~= before.take(old(self).strings().len() as int));
            assert forall|k: int| 0 <= k < out@.len() implies (#[trigger] out@[k]).index() < self.strings().len()
                && self.strings()[out@[k].index() as int] == split_path(s)[k] by {
                assert(before[out@[k].index() as int] == self.strings()[out@[k].index() as int]);
            }
        }
        out.push(sym);
        out
    }
}


/// Interning gives each string one symbol: in a well-formed codebase two symbols
/// that resolve to the same interned string are the same symbol.
pub proof fn law_one_symbol_per_string(c: Codebase, a: Symbol, b: Symbol)
    requires
        c.wf(),
        a.index() < c.strings().len(),
        b.index() < c.strings().len(),
        c.spec_resolve(a) == c.spec_resolve(b),
    ensures
        a.index() == b.index(),
{
}

/// What interning a string returns resolves back to that string, in the codebase
/// interning leaves.
pub proof fn law_resolve_interned(after: Codebase, text: Seq<char>, sym: Symbol)
    requires
        sym.index() < after.strings().len(),
        after.strings()[sym.index() as int] == text,
    ensures
        after.spec_resolve(sym) == text,
{
}

} // verus!
