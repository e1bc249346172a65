//! Value types of the filesystem abstraction: canonical absolute paths,
//! filesystem UUIDs and stat-style metadata.
use vstd::prelude::*;

use crate::text::{chars_of, find_char, first_index, lemma_first_index, last_index, lemma_last_index, push_char, rfind_char, string_of_range, str_eq};

verus! {

/// Short stable identifier of a backend, used in logs and trust events.
pub type BackendTag = &'static str;

/// Why a path could not be built.
#[derive(Clone, Copy, Debug, Eq, PartialEq, Structural)]
pub enum PathError {
    Empty,
    NotAbsolute,
    AboveRoot,
}

impl PathError {
    /// What went wrong, for logs.
    pub fn message(self) -> (r: &'static str)
        ensures
            r@ == match self {
                PathError::Empty => "path is empty"@,
                PathError::NotAbsolute => "path is not absolute"@,
                PathError::AboveRoot => "path traverses above root"@,
            },
    {
        match self {
            PathError::Empty => "path is empty",
            PathError::NotAbsolute => "path is not absolute",
            PathError::AboveRoot => "path traverses above root",
        }
    }
}

/// The pieces of `s` between occurrences of `c` (`str::split`).
pub open spec fn split_on(s: Seq<char>, c: char) -> Seq<Seq<char>>
    decreases s.len(),
{
    let i = first_index(s, c);
    if 0 <= i < s.len() {
        seq![s.subrange(0, i)] + split_on(s.subrange(i + 1, s.len() as int), c)
    } else {
        seq![s]
    }
}

pub open spec fn dot() -> Seq<char> {
    seq!['.']
}

pub open spec fn dotdot() -> Seq<char> {
    seq!['.', '.']
}

/// Resolve path segments onto `stack`: empty and `.` segments are dropped,
/// `..` pops the last segment (`None` when there is none), any other
/// segment is pushed.
pub open spec fn resolve(stack: Seq<Seq<char>>, segs: Seq<Seq<char>>) -> Option<Seq<Seq<char>>>
    decreases segs.len(),
{
    if segs.len() == 0 {
        Some(stack)
    } else {
        let seg = segs[0];
        if seg.len() == 0 || seg == dot() {
            resolve(stack, segs.drop_first())
        } else if seg == dotdot() {
            if stack.len() == 0 {
                None
            } else {
                resolve(stack.drop_last(), segs.drop_first())
            }
        } else {
            resolve(stack.push(seg), segs.drop_first())
        }
    }
}

/// `/` followed by the segments joined with `/`; `/` alone for none.
pub open spec fn render(stack: Seq<Seq<char>>) -> Seq<char>
    decreases stack.len(),
{
    if stack.len() == 0 {
        seq!['/']
    } else {
        render_segments(stack)
    }
}

/// `/seg` for each segment, concatenated.
pub open spec fn render_segments(stack: Seq<Seq<char>>) -> Seq<char>
    decreases stack.len(),
{
    if stack.len() == 0 {
        Seq::empty()
    } else {
        render_segments(stack.drop_last()) + seq!['/'] + stack.last()
    }
}

/// The canonical form of `s`: redundant separators collapsed, `.` dropped,
/// `..` resolved; an error for an empty, relative, or above-root path.
pub open spec fn canonical(s: Seq<char>) -> Result<Seq<char>, PathError> {
    if s.len() == 0 {
        Err(PathError::Empty)
    } else if s[0] != '/' {
        Err(PathError::NotAbsolute)
    } else {
        match resolve(Seq::empty(), split_on(s, '/')) {
            None => Err(PathError::AboveRoot),
            Some(st) => Ok(render(st)),
        }
    }
}

/// An owned, canonical, absolute, forward-slash-separated path.
#[derive(Clone, Debug, Eq, Hash, PartialEq)]
pub struct PathBuf(pub String);

/// A borrowed canonical path.
#[derive(Clone, Copy, Debug, Eq, Hash, PartialEq)]
pub struct Path<'a>(pub &'a str);

fn push_str(out: &mut String, v: &Vec<char>, lo: usize, hi: usize)
    requires
        lo <= hi <= v@.len(),
    ensures
        final(out)@ == old(out)@ + v@.subrange(lo as int, hi as int),
{
    let mut i = lo;
    while i < hi
        invariant
            lo <= i <= hi <= v@.len(),
            out@ == old(out)@ + v@.subrange(lo as int, i as int),
        decreases hi - i,
    {
        push_char(out, v[i]);
        assert(v@.subrange(lo as int, i + 1) == v@.subrange(lo as int, i as int).push(v@[i as int]));
        i += 1;
    }
}

pub open spec fn ranges_view(v: Seq<char>, st: Seq<(usize, usize)>) -> Seq<Seq<char>> {
    st.map_values(|p: (usize, usize)| v.subrange(p.0 as int, p.1 as int))
}

fn is_dot(v: &Vec<char>, lo: usize, hi: usize) -> (r: bool)
    requires
        lo <= hi <= v@.len(),
    ensures
        r == (v@.subrange(lo as int, hi as int) == dot()),
{
    if hi - lo == 1 && v[lo] == '.' {
        assert(v@.subrange(lo as int, hi as int) =~= dot());
        true
    } else {
        proof {
            let sub = v@.subrange(lo as int, hi as int);
            if sub == dot() {
                assert(sub.len() == 1);
                assert(sub[0] == '.');
                assert(v@[lo as int] == sub[0]);
            }
        }
        false
    }
}

fn is_dotdot(v: &Vec<char>, lo: usize, hi: usize) -> (r: bool)
    requires
        lo <= hi <= v@.len(),
    ensures
        r == (v@.subrange(lo as int, hi as int) == dotdot()),
{
    if hi - lo != 2 {
        assert(v@.subrange(lo as int, hi as int).len() != dotdot().len());
        return false;
    }
    let a = v[lo];
    let b = v[lo + 1];
    let r = a == '.' && b == '.';
    proof {
        let sub = v@.subrange(lo as int, hi as int);
        assert(sub[0] == a);
        assert(sub[1] == b);
        if r {
            assert(sub =~= dotdot());
        } else if sub == dotdot() {
            assert(sub[0] == '.' && sub[1] == '.');
        }
    }
    r
}

impl PathBuf {
    /// Canonicalize an absolute path: collapse `//`, drop `.`, resolve `..`;
    /// `Empty`, `NotAbsolute` or `AboveRoot` when that is impossible.
    pub fn from_str(s: &str) -> (r: Result<PathBuf, PathError>)
        ensures
            match r {
                Ok(p) => canonical(s@) == Ok::<Seq<char>, PathError>(p.0@),
                Err(e) => canonical(s@) == Err::<Seq<char>, PathError>(e),
            },
    {
        let v = chars_of(s);
        let n = v.len();
        if n == 0 {
            return Err(PathError::Empty);
        }
        if v[0] != '/' {
            return Err(PathError::NotAbsolute);
        }
        let mut stack: Vec<(usize, usize)> = Vec::new();
        let mut i: usize = 0;
        assert(v@.subrange(0, n as int) == v@);
        assert(ranges_view(v@, stack@) =~= Seq::<Seq<char>>::empty());
        loop
            invariant_except_break
                v@ == s@,
                n == v@.len(),
                n > 0,
                v@[0] == '/',
                i <= n,
                forall|k: int| 0 <= k < stack@.len() ==> (#[trigger] stack@[k]).0 <= stack@[k].1 <= n,
                resolve(Seq::empty(), split_on(s@, '/')) == resolve(
                    ranges_view(v@, stack@),
                    split_on(v@.subrange(i as int, n as int), '/'),
                ),
            ensures
                forall|k: int| 0 <= k < stack@.len() ==> (#[trigger] stack@[k]).0 <= stack@[k].1 <= n,
                resolve(Seq::empty(), split_on(s@, '/')) == Some(ranges_view(v@, stack@)),
            decreases n - i,
        {
            let ghost rest = v@.subrange(i as int, n as int);
            proof {
                lemma_first_index(rest, '/');
            }
            let ghost segs = split_on(rest, '/');
            let found = find_char(&v, i, n, '/');
            let end = match found {
                Some(k) => {
                    assert(rest.subrange(0, k as int) == v@.subrange(i as int, i + k));
                    assert(rest.subrange(k + 1, rest.len() as int) == v@.subrange(i + k + 1, n as int));
                    assert(segs == seq![rest.subrange(0, k as int)] + split_on(
                        rest.subrange(k + 1, rest.len() as int),
                        '/',
                    ));
                    assert(segs.drop_first() =~= split_on(v@.subrange(i + k + 1, n as int), '/'));
                    i + k
                },
                None => {
                    assert(segs.drop_first() =~= Seq::<Seq<char>>::empty());
                    n
                },
            };
            assert(segs[0] == v@.subrange(i as int, end as int));
            let ghost before = ranges_view(v@, stack@);
            if end == i || is_dot(&v, i, end) {
                assert(resolve(before, segs) == resolve(before, segs.drop_first()));
            } else if is_dotdot(&v, i, end) {
                if stack.len() == 0 {
                    assert(resolve(before, segs) is None);
                    return Err(PathError::AboveRoot);
                }
                stack.pop();
                assert(ranges_view(v@, stack@) =~= before.drop_last());
            } else {
                stack.push((i, end));
                assert(ranges_view(v@, stack@) =~= before.push(v@.subrange(i as int, end as int)));
            }
            if found.is_none() {
                assert(segs.drop_first() =~= Seq::<Seq<char>>::empty());
                assert(resolve(ranges_view(v@, stack@), segs.drop_first()) == Some(
                    ranges_view(v@, stack@),
                ));
                break;
            }
            i = end + 1;
        }
        let mut out = String::new();
        if stack.len() == 0 {
            push_char(&mut out, '/');
            assert(out@ =~= seq!['/']);
        } else {
            let mut k: usize = 0;
            while k < stack.len()
                invariant
                    k <= stack@.len(),
                    forall|j: int| 0 <= j < stack@.len() ==> (#[trigger] stack@[j]).0 <= stack@[j].1 <= n,
                    n == v@.len(),
                    out@ == render_segments(ranges_view(v@, stack@.subrange(0, k as int))),
                decreases stack@.len() - k,
            {
                let (a, b) = stack[k];
                push_char(&mut out, '/');
                push_str(&mut out, &v, a, b);
                proof {
                    let pre = ranges_view(v@, stack@.subrange(0, k + 1));
                    assert(pre.drop_last() =~= ranges_view(v@, stack@.subrange(0, k as int)));
                    assert(pre.last() == v@.subrange(a as int, b as int));
                }
                k += 1;
            }
            assert(stack@.subrange(0, stack@.len() as int) == stack@);
        }
        Ok(PathBuf(out))
    }

    /// The path as a borrowed `Path`.
    pub fn as_path(&self) -> (r: Path<'_>)
        ensures
            r.0@ == self.0@,
    {
        Path(self.0.as_str())
    }

    /// The path as a string.
    pub fn as_str(&self) -> (r: &str)
        ensures
            r@ == self.0@,
    {
        self.0.as_str()
    }
}

/// The final component of a path: what follows its last `/`, or the empty
/// string when there is no `/`.
pub open spec fn file_name_of(s: Seq<char>) -> Seq<char> {
    let i = last_index(s, '/');
    if i < 0 {
        Seq::empty()
    } else {
        s.subrange(i + 1, s.len() as int)
    }
}

/// The parent of a path: what precedes its last `/`, or `/` when that is
/// empty or there is no `/`.
pub open spec fn parent_of(s: Seq<char>) -> Seq<char> {
    let i = last_index(s, '/');
    if s == seq!['/'] || i <= 0 {
        seq!['/']
    } else {
        s.subrange(0, i)
    }
}

/// `child` joined onto `base`: an absolute child replaces the base, else
/// the two are joined with one `/`; the result is canonicalized.
pub open spec fn joined(base: Seq<char>, child: Seq<char>) -> Result<Seq<char>, PathError> {
    if child.len() > 0 && child[0] == '/' {
        canonical(child)
    } else if base.len() > 0 && base.last() == '/' {
        canonical(base + child)
    } else {
        canonical(base + seq!['/'] + child)
    }
}

impl<'a> Path<'a> {
    /// A `Path` over a string the caller holds to be canonical already.
    pub fn from_canonical_str(s: &'a str) -> (r: Path<'a>)
        ensures
            r.0@ == s@,
    {
        Path(s)
    }

    /// Canonicalize `s` into an owned path.
    pub fn try_from_str(s: &str) -> (r: Result<PathBuf, PathError>)
        ensures
            match r {
                Ok(p) => canonical(s@) == Ok::<Seq<char>, PathError>(p.0@),
                Err(e) => canonical(s@) == Err::<Seq<char>, PathError>(e),
            },
    {
        PathBuf::from_str(s)
    }

    pub fn as_str(&self) -> (r: &'a str)
        ensures
            r@ == self.0@,
    {
        self.0
    }

    /// Final component (file or directory name), or `""` for `/`.
    pub fn file_name(&self) -> (r: String)
        ensures
            r@ == file_name_of(self.0@),
    {
        let v = chars_of(self.0);
        let n = v.len();
        assert(v@.subrange(0, n as int) == v@);
        proof {
            lemma_last_index(v@, '/');
        }
        match rfind_char(&v, 0, n, '/') {
            Some(i) => string_of_range(&v, i + 1, n),
            None => String::new(),
        }
    }

    /// Parent path, or `/` for `/` and for a path `/foo`.
    pub fn parent(&self) -> (r: PathBuf)
        ensures
            r.0@ == parent_of(self.0@),
    {
        let v = chars_of(self.0);
        let n = v.len();
        assert(v@.subrange(0, n as int) == v@);
        proof {
            lemma_last_index(v@, '/');
        }
        let slash = rfind_char(&v, 0, n, '/');
        let is_root = n == 1 && v[0] == '/';
        if is_root {
            assert(v@ =~= seq!['/']);
        } else if n == 1 {
            assert(v@ != seq!['/']) by {
                if v@ == seq!['/'] {
                    assert(v@[0] == '/');
                }
            }
        }
        match slash {
            Some(i) if !is_root && i > 0 => PathBuf(string_of_range(&v, 0, i)),
            _ => {
                let mut out = String::new();
                push_char(&mut out, '/');
                assert(out@ =~= seq!['/']);
                PathBuf(out)
            },
        }
    }

    /// Join a child component onto this path, canonicalizing; an absolute
    /// child replaces the path.
    pub fn join(&self, child: &str) -> (r: Result<PathBuf, PathError>)
        ensures
            match r {
                Ok(p) => joined(self.0@, child@) == Ok::<Seq<char>, PathError>(p.0@),
                Err(e) => joined(self.0@, child@) == Err::<Seq<char>, PathError>(e),
            },
    {
        let cv = chars_of(child);
        if cv.len() > 0 && cv[0] == '/' {
            return PathBuf::from_str(child);
        }
        let bv = chars_of(self.0);
        let mut combined = String::new();
        push_str(&mut combined, &bv, 0, bv.len());
        assert(bv@.subrange(0, bv@.len() as int) == bv@);
        let slash_end = bv.len() > 0 && bv[bv.len() - 1] == '/';
        if !slash_end {
            push_char(&mut combined, '/');
        }
        push_str(&mut combined, &cv, 0, cv.len());
        assert(cv@.subrange(0, cv@.len() as int) == cv@);
        if slash_end {
            assert(combined@ =~= self.0@ + child@);
        } else {
            assert(combined@ =~= self.0@ + seq!['/'] + child@);
        }
        PathBuf::from_str(combined.as_str())
    }
}

/// A 128-bit filesystem UUID.
#[derive(Clone, Copy, Debug, Eq, Hash, PartialEq)]
pub struct Uuid(pub [u8; 16]);

impl Uuid {
    /// Widen a 32-bit FAT volume serial to a UUID: its little-endian bytes
    /// then twelve zero bytes.
    pub fn from_fat_serial(serial: u32) -> (r: Uuid)
        ensures
            r.0@ == seq![
                (serial % 256) as u8,
                ((serial / 256) % 256) as u8,
                ((serial / 65536) % 256) as u8,
                (serial / 16777216) as u8,
            ] + Seq::new(12, |_i: int| 0u8),
    {
        let mut bytes = [0u8; 16];
        bytes[0] = (serial % 256) as u8;
        bytes[1] = ((serial / 256) % 256) as u8;
        bytes[2] = ((serial / 65536) % 256) as u8;
        bytes[3] = (serial / 16777216) as u8;
        let r = Uuid(bytes);
        assert(r.0@ =~= seq![
            (serial % 256) as u8,
            ((serial / 256) % 256) as u8,
            ((serial / 65536) % 256) as u8,
            (serial / 16777216) as u8,
        ] + Seq::new(12, |_i: int| 0u8));
        r
    }

    pub fn from_bytes(bytes: [u8; 16]) -> (r: Uuid)
        ensures
            r.0 == bytes,
    {
        Uuid(bytes)
    }

    /// The canonical text form: lower-case hex, hyphenated 8-4-4-4-12.
    pub fn to_text(&self) -> (r: String)
        ensures
            r@ == uuid_text(self.0@),
    {
        let mut out: Vec<char> = Vec::new();
        let mut i: usize = 0;
        while i < 16
            invariant
                i <= 16,
                self.0@.len() == 16,
                out@ == uuid_text_prefix(self.0@, i as int),
            decreases 16 - i,
        {
            if i == 4 || i == 6 || i == 8 || i == 10 {
                out.push('-');
            }
            let b = self.0[i];
            out.push(lower_hex(b / 16));
            out.push(lower_hex(b % 16));
            i += 1;
        }
        crate::text::string_of(&out)
    }
}

/// A lower-case hexadecimal digit.
pub open spec fn hex_lower(d: int) -> char {
    if d < 10 {
        (48 + d) as char
    } else {
        (87 + d) as char
    }
}

fn lower_hex(d: u8) -> (c: char)
    requires
        d < 16,
    ensures
        c == hex_lower(d as int),
{
    if d < 10 {
        ((48 + d) as u8) as char
    } else {
        ((87 + d) as u8) as char
    }
}

/// The text of the first `n` bytes of a UUID: two hex digits each, with a
/// hyphen before bytes 4, 6, 8 and 10.
pub open spec fn uuid_text_prefix(b: Seq<u8>, n: int) -> Seq<char>
    decreases n,
{
    if n <= 0 {
        seq![]
    } else {
        let k = n - 1;
        uuid_text_prefix(b, k) + (if k == 4 || k == 6 || k == 8 || k == 10 {
            seq!['-']
        } else {
            seq![]
        }) + seq![hex_lower((b[k] / 16) as int), hex_lower((b[k] % 16) as int)]
    }
}

/// The canonical text of a UUID's 16 bytes.
pub open spec fn uuid_text(b: Seq<u8>) -> Seq<char> {
    uuid_text_prefix(b, 16)
}

/// Kind of a directory entry.
#[derive(Clone, Copy, Debug, Eq, PartialEq, Structural)]
pub enum FileKind {
    Regular,
    Directory,
    Symlink,
    Other,
}

/// Stat-style metadata.
#[derive(Clone, Debug, Eq, PartialEq)]
pub struct Metadata {
    pub kind: FileKind,
    pub size: u64,
    pub mode: u32,
    pub read_only: bool,
    pub source_backend: BackendTag,
}

/// Permission bits of a FAT file: directories `0o755`, read-only regular
/// files `0o444`, other regular files `0o644`, anything else `0`.
pub open spec fn fat_mode(kind: FileKind, read_only: bool) -> u32 {
    match kind {
        FileKind::Directory => 0o755,
        FileKind::Regular => if read_only {
            0o444
        } else {
            0o644
        },
        _ => 0,
    }
}

/// Permission bits on read-only media that store none the reader decodes:
/// directories `0o555`, everything else `0o444`.
pub open spec fn media_mode(kind: FileKind) -> u32 {
    match kind {
        FileKind::Directory => 0o555,
        _ => 0o444,
    }
}

impl Metadata {
    /// Metadata of a FAT file from its kind, size and read-only attribute.
    pub fn fat(kind: FileKind, size: u64, read_only: bool, backend: BackendTag) -> (r: Metadata)
        ensures
            r.kind == kind,
            r.size == size,
            r.mode == fat_mode(kind, read_only),
            r.read_only == read_only,
            r.source_backend == backend,
    {
        let mode: u32 = match kind {
            FileKind::Directory => 0o755,
            FileKind::Regular => if read_only {
                0o444
            } else {
                0o644
            },
            _ => 0,
        };
        Metadata { kind, size, mode, read_only, source_backend: backend }
    }

    /// Metadata of a file on a read-only medium (exFAT, ZFS): always
    /// read-only, with synthesized permission bits.
    pub fn read_only_media(kind: FileKind, size: u64, backend: BackendTag) -> (r: Metadata)
        ensures
            r.kind == kind,
            r.size == size,
            r.mode == media_mode(kind),
            r.read_only,
            r.source_backend == backend,
    {
        let mode: u32 = match kind {
            FileKind::Directory => 0o555,
            _ => 0o444,
        };
        Metadata { kind, size, mode, read_only: true, source_backend: backend }
    }
}

/// A canonical path in the firmware's file-protocol form: every `/`
/// becomes `\` (so the root is `\`).
pub open spec fn firmware_path(p: Seq<char>) -> Seq<char> {
    p.map_values(|c: char| if c == '/' { '\\' } else { c })
}

/// The firmware file-protocol form of `path`.
pub fn to_firmware_path(path: &Path) -> (r: String)
    ensures
        r@ == firmware_path(path.0@),
{
    let v = chars_of(path.0);
    let mut out = String::new();
    let mut i: usize = 0;
    while i < v.len()
        invariant
            v@ == path.0@,
            i <= v@.len(),
            out@ == firmware_path(path.0@).subrange(0, i as int),
        decreases v@.len() - i,
    {
        let c = if v[i] == '/' {
            '\\'
        } else {
            v[i]
        };
        push_char(&mut out, c);
        assert(firmware_path(path.0@).subrange(0, i + 1) =~= firmware_path(path.0@).subrange(
            0,
            i as int,
        ).push(c));
        i += 1;
    }
    assert(firmware_path(path.0@).subrange(0, i as int) =~= firmware_path(path.0@));
    out
}

/// One directory entry.
#[derive(Clone, Debug, Eq, PartialEq)]
pub struct DirEntry {
    pub name: String,
    pub kind: FileKind,
    pub size: u64,
}


/// A segment of a canonical path: non-empty, not `.` or `..`, no `/`.
pub open spec fn clean_segment(seg: Seq<char>) -> bool {
    seg.len() > 0 && seg != dot() && seg != dotdot() && !seg.contains('/')
}

proof fn lemma_first_index_at(a: Seq<char>, b: Seq<char>, c: char)
    requires
        !a.contains(c),
    ensures
        first_index(a + seq![c] + b, c) == a.len(),
{
    let s = a + seq![c] + b;
    lemma_first_index(s, c);
    let fi = first_index(s, c);
    assert(s[a.len() as int] == c);
    if 0 <= fi < a.len() {
        assert(a[fi] == c);
    }
}

proof fn lemma_split_sep(a: Seq<char>, b: Seq<char>, c: char)
    requires
        !a.contains(c),
    ensures
        split_on(a + seq![c] + b, c) == seq![a] + split_on(b, c),
{
    let s = a + seq![c] + b;
    lemma_first_index_at(a, b, c);
    assert(s.subrange(0, a.len() as int) =~= a);
    assert(s.subrange(a.len() as int + 1, s.len() as int) =~= b);
}

proof fn lemma_split_nosep(a: Seq<char>, c: char)
    requires
        !a.contains(c),
    ensures
        split_on(a, c) == seq![a],
{
    lemma_first_index(a, c);
    if first_index(a, c) >= 0 {
        assert(a[first_index(a, c)] == c);
    }
}

proof fn lemma_split_pieces(s: Seq<char>, c: char)
    ensures
        forall|k: int| 0 <= k < split_on(s, c).len() ==> !(#[trigger] split_on(s, c)[k]).contains(c),
    decreases s.len(),
{
    lemma_first_index(s, c);
    let i = first_index(s, c);
    if 0 <= i < s.len() {
        let rest = s.subrange(i + 1, s.len() as int);
        lemma_split_pieces(rest, c);
        assert forall|k: int| 0 <= k < split_on(s, c).len() implies !(
        #[trigger] split_on(s, c)[k]).contains(c) by {
            if k == 0 {
                if s.subrange(0, i).contains(c) {
                    let w = choose|w: int| 0 <= w < i && s.subrange(0, i)[w] == c;
                    assert(s[w] == c);
                }
            } else {
                assert(split_on(s, c)[k] == split_on(rest, c)[k - 1]);
            }
        }
    } else {
        assert forall|k: int| 0 <= k < split_on(s, c).len() implies !(
        #[trigger] split_on(s, c)[k]).contains(c) by {
            if s.contains(c) {
                let w = choose|w: int| 0 <= w < s.len() && s[w] == c;
                assert(s[w] == c);
            }
        }
    }
}

proof fn lemma_resolve_clean(stack: Seq<Seq<char>>, segs: Seq<Seq<char>>)
    requires
        forall|k: int| 0 <= k < stack.len() ==> clean_segment(#[trigger] stack[k]),
        forall|k: int| 0 <= k < segs.len() ==> !(#[trigger] segs[k]).contains('/'),
    ensures
        resolve(stack, segs) matches Some(r) ==> forall|k: int|
            0 <= k < r.len() ==> clean_segment(#[trigger] r[k]),
    decreases segs.len(),
{
    if segs.len() > 0 {
        let seg = segs[0];
        assert forall|k: int| 0 <= k < segs.drop_first().len() implies !(
        #[trigger] segs.drop_first()[k]).contains('/') by {
            assert(segs.drop_first()[k] == segs[k + 1]);
        }
        if seg.len() == 0 || seg == dot() {
            lemma_resolve_clean(stack, segs.drop_first());
        } else if seg == dotdot() {
            if stack.len() > 0 {
                assert forall|k: int| 0 <= k < stack.drop_last().len() implies clean_segment(
                    #[trigger] stack.drop_last()[k],
                ) by {
                    assert(stack.drop_last()[k] == stack[k]);
                }
                lemma_resolve_clean(stack.drop_last(), segs.drop_first());
            }
        } else {
            assert forall|k: int| 0 <= k < stack.push(seg).len() implies clean_segment(
                #[trigger] stack.push(seg)[k],
            ) by {
                if k < stack.len() {
                    assert(stack.push(seg)[k] == stack[k]);
                }
            }
            lemma_resolve_clean(stack.push(seg), segs.drop_first());
        }
    }
}

proof fn lemma_resolve_of_clean(stack: Seq<Seq<char>>, st: Seq<Seq<char>>)
    requires
        forall|k: int| 0 <= k < st.len() ==> clean_segment(#[trigger] st[k]),
    ensures
        resolve(stack, st) == Some(stack + st),
    decreases st.len(),
{
    if st.len() == 0 {
        assert(stack + st =~= stack);
    } else {
        assert(clean_segment(st[0]));
        assert forall|k: int| 0 <= k < st.drop_first().len() implies clean_segment(
            #[trigger] st.drop_first()[k],
        ) by {
            assert(st.drop_first()[k] == st[k + 1]);
        }
        lemma_resolve_of_clean(stack.push(st[0]), st.drop_first());
        assert(stack.push(st[0]) + st.drop_first() =~= stack + st);
    }
}

proof fn lemma_render_front(st: Seq<Seq<char>>)
    requires
        st.len() > 0,
    ensures
        render_segments(st) == seq!['/'] + st[0] + render_segments(st.drop_first()),
    decreases st.len(),
{
    if st.len() == 1 {
        assert(st.drop_last() =~= Seq::<Seq<char>>::empty());
        assert(st.drop_first() =~= Seq::<Seq<char>>::empty());
        assert(render_segments(st) =~= seq!['/'] + st[0]);
    } else {
        lemma_render_front(st.drop_last());
        assert(st.drop_last().drop_first() =~= st.drop_first().drop_last());
        assert(st.drop_first().last() == st.last());
        assert(render_segments(st) =~= seq!['/'] + st[0] + render_segments(st.drop_first()));
    }
}

proof fn lemma_split_render(st: Seq<Seq<char>>)
    requires
        st.len() > 0,
        forall|k: int| 0 <= k < st.len() ==> clean_segment(#[trigger] st[k]),
    ensures
        split_on(st[0] + render_segments(st.drop_first()), '/') == st,
    decreases st.len(),
{
    assert(clean_segment(st[0]));
    let t = st.drop_first();
    if t.len() == 0 {
        assert(st[0] + render_segments(t) =~= st[0]);
        lemma_split_nosep(st[0], '/');
        assert(st =~= seq![st[0]]);
    } else {
        assert forall|k: int| 0 <= k < t.len() implies clean_segment(#[trigger] t[k]) by {
            assert(t[k] == st[k + 1]);
        }
        lemma_render_front(t);
        lemma_split_render(t);
        let tail = t[0] + render_segments(t.drop_first());
        assert(st[0] + render_segments(t) =~= st[0] + seq!['/'] + tail);
        lemma_split_sep(st[0], tail, '/');
        assert(seq![st[0]] + t =~= st);
    }
}

/// A canonical path is its own canonical form: canonicalizing the result
/// of a successful canonicalization gives it back unchanged.
pub proof fn canonical_idempotent(s: Seq<char>)
    requires
        canonical(s) is Ok,
    ensures
        canonical(canonical(s)->Ok_0) == canonical(s),
{
    let segs = split_on(s, '/');
    lemma_split_pieces(s, '/');
    lemma_resolve_clean(Seq::empty(), segs);
    let st = resolve(Seq::empty(), segs)->Some_0;
    let c = render(st);
    if st.len() == 0 {
        assert(c =~= seq!['/']);
        let e = Seq::<char>::empty();
        assert(c =~= e + seq!['/'] + e);
        lemma_split_sep(e, e, '/');
        lemma_split_nosep(e, '/');
        assert(split_on(c, '/') =~= seq![e, e]);
        let none = Seq::<Seq<char>>::empty();
        let one = seq![e];
        let two = seq![e, e];
        assert(two.drop_first() =~= one);
        assert(one.drop_first() =~= none);
        assert(resolve(none, none) == Some(none));
        assert(resolve(none, one) == resolve(none, none));
        assert(resolve(none, two) == resolve(none, one));
    } else {
        lemma_render_front(st);
        lemma_split_render(st);
        let e = Seq::<char>::empty();
        let tail = st[0] + render_segments(st.drop_first());
        assert(c =~= e + seq!['/'] + tail);
        lemma_split_sep(e, tail, '/');
        assert(split_on(c, '/') == seq![e] + st);
        lemma_resolve_of_clean(Seq::empty(), st);
        assert(Seq::<Seq<char>>::empty() + st =~= st);
        assert((seq![e] + st).drop_first() =~= st);
        assert(c[0] == '/');
    }
}

} // verus!
