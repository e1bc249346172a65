//! The per-volume read cache, path-string normalization and the simple
//! glob of the volume layer.
use vstd::prelude::*;

use crate::fs_types::Path;
use crate::text::{
    chars_of, last_index, lemma_last_index, push_char, range_ends_with, range_is,
    range_starts_with, rfind_char, str_eq, string_of_range,
};

verus! {

/// Cache limit in bytes.
pub const CACHE_BYTES_LIMIT: usize = 8388608;

/// What a cached read was: a path, an offset and a length (`usize::MAX`
/// for a whole-file read).
#[derive(Clone, Debug)]
pub struct CacheKey {
    pub path: String,
    pub offset: u64,
    pub len: usize,
}

pub struct CacheKeyView {
    pub path: Seq<char>,
    pub offset: u64,
    pub len: usize,
}

impl View for CacheKey {
    type V = CacheKeyView;

    open spec fn view(&self) -> CacheKeyView {
        CacheKeyView { path: self.path@, offset: self.offset, len: self.len }
    }
}

fn copy_string(s: &String) -> (r: String)
    ensures
        r@ == s@,
{
    String::from_str(s.as_str())
}

fn copy_bytes(v: &Vec<u8>) -> (r: Vec<u8>)
    ensures
        r@ == v@,
{
    let mut out: Vec<u8> = Vec::new();
    let mut i: usize = 0;
    while i < v.len()
        invariant
            i <= v@.len(),
            out@ == v@.subrange(0, i as int),
        decreases v@.len() - i,
    {
        out.push(v[i]);
        assert(v@.subrange(0, i + 1) == v@.subrange(0, i as int).push(v@[i as int]));
        i += 1;
    }
    assert(v@.subrange(0, v@.len() as int) == v@);
    out
}

impl CacheKey {
    /// The key of a whole-file read of `path`.
    pub fn full_read(path: &Path) -> (r: CacheKey)
        ensures
            r@.path == path.0@,
            r@.offset == 0,
            r@.len == usize::MAX,
    {
        CacheKey { path: String::from_str(path.as_str()), offset: 0, len: usize::MAX }
    }

    /// The key of a ranged read of `path`.
    pub fn range(path: &Path, offset: u64, len: usize) -> (r: CacheKey)
        ensures
            r@.path == path.0@,
            r@.offset == offset,
            r@.len == len,
    {
        CacheKey { path: String::from_str(path.as_str()), offset, len }
    }

    /// Whether two keys name the same read.
    pub fn matches(&self, other: &CacheKey) -> (r: bool)
        ensures
            r == (self@ == other@),
    {
        str_eq(self.path.as_str(), other.path.as_str()) && self.offset == other.offset && self.len
            == other.len
    }
}

/// One cached read.
pub struct CacheEntry {
    pub key: CacheKey,
    pub data: Vec<u8>,
}

pub open spec fn entry_view(e: CacheEntry) -> (CacheKeyView, Seq<u8>) {
    (e.key@, e.data@)
}

/// Total size of the cached data.
pub open spec fn total(es: Seq<(CacheKeyView, Seq<u8>)>) -> nat
    decreases es.len(),
{
    if es.len() == 0 {
        0
    } else {
        total(es.drop_last()) + es.last().1.len()
    }
}

/// Index of the first entry with key `k`, or `-1`.
pub open spec fn first_key(es: Seq<(CacheKeyView, Seq<u8>)>, k: CacheKeyView, i: int) -> int
    decreases es.len() - i,
{
    if i < 0 || i >= es.len() {
        -1
    } else if es[i].0 == k {
        i
    } else {
        first_key(es, k, i + 1)
    }
}

/// The entries kept when `len` more bytes must fit under `limit`: the
/// oldest (last) entries are dropped until they do, or none are left.
pub open spec fn evict(es: Seq<(CacheKeyView, Seq<u8>)>, len: nat, limit: nat) -> Seq<
    (CacheKeyView, Seq<u8>),
>
    decreases es.len(),
{
    if es.len() > 0 && total(es) + len > limit {
        evict(es.drop_last(), len, limit)
    } else {
        es
    }
}

/// A least-recently-used cache of file reads, most recent first, bounded
/// by `CACHE_BYTES_LIMIT` bytes.
pub struct VolumeCache {
    entries: Vec<CacheEntry>,
    used_bytes: usize,
    limit_bytes: usize,
}

impl View for VolumeCache {
    type V = Seq<(CacheKeyView, Seq<u8>)>;

    closed spec fn view(&self) -> Seq<(CacheKeyView, Seq<u8>)> {
        self.entries@.map_values(|e: CacheEntry| entry_view(e))
    }
}

proof fn lemma_total_concat(a: Seq<(CacheKeyView, Seq<u8>)>, b: Seq<(CacheKeyView, Seq<u8>)>)
    ensures
        total(a + b) == total(a) + total(b),
    decreases b.len(),
{
    if b.len() == 0 {
        assert(a + b =~= a);
    } else {
        lemma_total_concat(a, b.drop_last());
        assert((a + b).drop_last() =~= a + b.drop_last());
    }
}

proof fn lemma_total_single(x: (CacheKeyView, Seq<u8>))
    ensures
        total(seq![x]) == x.1.len(),
{
    assert(seq![x].drop_last() =~= Seq::<(CacheKeyView, Seq<u8>)>::empty());
    assert(total(Seq::<(CacheKeyView, Seq<u8>)>::empty()) == 0);
}

proof fn lemma_total_remove(s: Seq<(CacheKeyView, Seq<u8>)>, p: int)
    requires
        0 <= p < s.len(),
    ensures
        total(s) == total(s.remove(p)) + s[p].1.len(),
        total(seq![s[p]] + s.remove(p)) == total(s),
{
    let a = s.take(p);
    let b = s.skip(p + 1);
    assert(s =~= a + seq![s[p]] + b);
    assert(s.remove(p) =~= a + b);
    lemma_total_concat(a + seq![s[p]], b);
    lemma_total_concat(a, seq![s[p]]);
    lemma_total_concat(a, b);
    lemma_total_single(s[p]);
    lemma_total_concat(seq![s[p]], a + b);
}

proof fn lemma_evict(es: Seq<(CacheKeyView, Seq<u8>)>, len: nat, limit: nat)
    requires
        len <= limit,
    ensures
        total(evict(es, len, limit)) + len <= limit,
        evict(es, len, limit).len() <= es.len(),
        evict(es, len, limit) == es.take(evict(es, len, limit).len() as int),
    decreases es.len(),
{
    if es.len() > 0 && total(es) + len > limit {
        lemma_evict(es.drop_last(), len, limit);
        let r = evict(es.drop_last(), len, limit);
        assert(es.drop_last().take(r.len() as int) =~= es.take(r.len() as int));
    } else {
        assert(es.take(es.len() as int) =~= es);
    }
}

impl VolumeCache {
    /// Well-formedness: the byte count is the total of the cached data and
    /// stays within the limit.
    pub closed spec fn wf(&self) -> bool {
        &&& self.used_bytes == total(self@)
        &&& self.limit_bytes == CACHE_BYTES_LIMIT
        &&& self.used_bytes <= self.limit_bytes
    }

    /// Bytes currently cached.
    pub closed spec fn used(&self) -> nat {
        self.used_bytes as nat
    }

    /// An empty cache.
    pub fn new() -> (r: VolumeCache)
        ensures
            r.wf(),
            r@ == Seq::<(CacheKeyView, Seq<u8>)>::empty(),
    {
        let r = VolumeCache { entries: Vec::new(), used_bytes: 0, limit_bytes: CACHE_BYTES_LIMIT };
        assert(r@ =~= Seq::<(CacheKeyView, Seq<u8>)>::empty());
        r
    }

    /// Bytes currently cached.
    pub fn used_bytes(&self) -> (r: usize)
        requires
            self.wf(),
        ensures
            r == total(self@),
            r <= CACHE_BYTES_LIMIT,
    {
        self.used_bytes
    }

    /// Look `key` up. A hit returns the cached data and moves its entry to
    /// the front (most recently used); a miss changes nothing.
    pub fn get(&mut self, key: &CacheKey) -> (r: Option<Vec<u8>>)
        requires
            old(self).wf(),
        ensures
            final(self).wf(),
            ({
                let p = first_key(old(self)@, key@, 0);
                match r {
                    Some(d) => p >= 0 && d@ == old(self)@[p].1 && final(self)@ == seq![old(self)@[p]]
                        + old(self)@.remove(p),
                    None => p == -1 && final(self)@ == old(self)@,
                }
            }),
    {
        let ghost es = self@;
        let mut i: usize = 0;
        while i < self.entries.len()
            invariant
                i <= self.entries@.len(),
                self.wf(),
                es == self@,
                es == old(self)@,
                es == self.entries@.map_values(|e: CacheEntry| entry_view(e)),
                first_key(es, key@, 0) == first_key(es, key@, i as int),
            decreases self.entries@.len() - i,
        {
            assert(es[i as int] == entry_view(self.entries@[i as int]));
            if self.entries[i].key.matches(key) {
                assert(es[i as int].0 == key@);
                assert(first_key(es, key@, i as int) == i);
                let entry = self.entries.remove(i);
                let data = copy_bytes(&entry.data);
                self.entries.insert(0, entry);
                proof {
                    assert(self@ =~= seq![es[i as int]] + es.remove(i as int));
                    lemma_total_remove(es, i as int);
                }
                return Some(data);
            }
            i += 1;
        }
        None
    }

    /// Cache `data` under `key` as the most recent entry, first dropping the
    /// oldest entries until it fits. Data larger than the whole limit is not
    /// cached.
    pub fn insert(&mut self, key: CacheKey, data: Vec<u8>)
        requires
            old(self).wf(),
        ensures
            final(self).wf(),
            data@.len() > CACHE_BYTES_LIMIT ==> final(self)@ == old(self)@,
            data@.len() <= CACHE_BYTES_LIMIT ==> final(self)@ == seq![(key@, data@)] + evict(
                old(self)@,
                data@.len(),
                CACHE_BYTES_LIMIT as nat,
            ),
    {
        let data_len = data.len();
        if data_len > self.limit_bytes {
            return;
        }
        let ghost es = self@;
        proof {
            lemma_evict(es, data_len as nat, CACHE_BYTES_LIMIT as nat);
        }
        while self.used_bytes > self.limit_bytes - data_len && self.entries.len() > 0
            invariant
                self.limit_bytes == CACHE_BYTES_LIMIT,
                data_len <= self.limit_bytes,
                self.used_bytes == total(self@),
                self.used_bytes <= self.limit_bytes,
                evict(es, data_len as nat, CACHE_BYTES_LIMIT as nat) == evict(
                    self@,
                    data_len as nat,
                    CACHE_BYTES_LIMIT as nat,
                ),
            decreases self.entries@.len(),
        {
            let ghost before = self@;
            let evicted = self.entries.pop().unwrap();
            proof {
                assert(self@ =~= before.drop_last());
            }
            self.used_bytes = self.used_bytes - evicted.data.len();
        }
        proof {
            let cur = self@;
            if cur.len() > 0 {
                assert(!(total(cur) + data_len > CACHE_BYTES_LIMIT));
            } else {
                assert(cur =~= Seq::<(CacheKeyView, Seq<u8>)>::empty());
            }
            assert(evict(cur, data_len as nat, CACHE_BYTES_LIMIT as nat) == cur);
        }
        let ghost kept = self@;
        self.used_bytes = self.used_bytes + data_len;
        self.entries.insert(0, CacheEntry { key, data });
        proof {
            assert(self@ =~= seq![(key@, data@)] + kept);
            lemma_total_concat(seq![(key@, data@)], kept);
            lemma_total_single((key@, data@));
        }
    }

    /// Drop every cached read of `path`.
    pub fn invalidate_path(&mut self, path: &Path)
        requires
            old(self).wf(),
        ensures
            final(self).wf(),
            final(self)@ == old(self)@.filter(|e: (CacheKeyView, Seq<u8>)| e.0.path != path.0@),
    {
        let ghost es = self@;
        let mut kept: Vec<CacheEntry> = Vec::new();
        let mut freed: usize = 0;
        let mut old_entries: Vec<CacheEntry> = Vec::new();
        core::mem::swap(&mut old_entries, &mut self.entries);
        let ghost mut i: int = 0;
        let ghost mut kv: Seq<(CacheKeyView, Seq<u8>)> = Seq::empty();
        let mut rest = old_entries;
        assert(rest@.map_values(|e: CacheEntry| entry_view(e)) == es);
        while rest.len() > 0
            invariant
                kept@.map_values(|e: CacheEntry| entry_view(e)) == es.take(i).filter(
                    |e: (CacheKeyView, Seq<u8>)| e.0.path != path.0@,
                ),
                rest@.map_values(|e: CacheEntry| entry_view(e)) == es.skip(i),
                0 <= i <= es.len(),
                total(es.take(i)) == total(kept@.map_values(|e: CacheEntry| entry_view(e)))
                    + freed,
                total(es) <= CACHE_BYTES_LIMIT,
            decreases rest@.len(),
        {
            let ghost r0 = rest@;
            let e = rest.remove(0);
            proof {
                assert(r0.len() > 0);
                assert(es.skip(i).len() == r0.len());
                assert(i < es.len());
                assert(r0.map_values(|e: CacheEntry| entry_view(e))[0] == entry_view(r0[0]));
                assert(es.skip(i)[0] == es[i]);
                assert(es[i] == entry_view(e));
                assert(rest@ =~= r0.drop_first());
                assert(es.take(i + 1) =~= es.take(i).push(es[i]));
                assert(es.take(i).push(es[i]).drop_last() =~= es.take(i));
                assert(es.skip(i + 1) =~= es.skip(i).drop_first());
                lemma_total_concat(es.take(i + 1), es.skip(i + 1));
                assert(es.take(i + 1) + es.skip(i + 1) =~= es);
            }
            let ghost kv_before = kept@.map_values(|e: CacheEntry| entry_view(e));
            assert(total(es.take(i + 1)) == total(es.take(i)) + es[i].1.len());
            if str_eq(e.key.path.as_str(), path.0) {
                freed = freed + e.data.len();
            } else {
                let ghost ev = entry_view(e);
                kept.push(e);
                proof {
                    assert(kept@.map_values(|e: CacheEntry| entry_view(e)) =~= kv_before.push(ev));
                    assert(kv_before.push(ev).drop_last() =~= kv_before);
                }
            }
            proof {
                es.take(i).lemma_filter_push(
                    es[i],
                    |e: (CacheKeyView, Seq<u8>)| e.0.path != path.0@,
                );
            }
            proof {
                i = i + 1;
            }
        }
        proof {
            assert(es.take(i) =~= es) by {
                assert(es.skip(i).len() == 0);
            }
        }
        self.entries = kept;
        self.used_bytes = self.used_bytes - freed;
    }
}


/// A read that was cached is found again: right after `data` is cached
/// under `key` (within the limit), a lookup of `key` hits that entry and
/// returns `data`.
pub proof fn cache_read_after_write(
    before: Seq<(CacheKeyView, Seq<u8>)>,
    key: CacheKeyView,
    data: Seq<u8>,
)
    requires
        data.len() <= CACHE_BYTES_LIMIT,
    ensures
        ({
            let after = seq![(key, data)] + evict(before, data.len(), CACHE_BYTES_LIMIT as nat);
            first_key(after, key, 0) == 0 && after[0].1 == data
        }),
{
}

/// A well-formed cache never holds more than `CACHE_BYTES_LIMIT` bytes.
pub proof fn cache_within_limit(c: &VolumeCache)
    requires
        c.wf(),
    ensures
        total(c@) <= CACHE_BYTES_LIMIT,
{
}

/// `s` with backslashes turned into slashes and a leading `/` added when
/// missing; `/` for the empty string.
pub open spec fn normalized_path(s: Seq<char>) -> Seq<char> {
    let t = s.map_values(|c: char| if c == '\\' { '/' } else { c });
    if s.len() == 0 {
        seq!['/']
    } else if t[0] == '/' {
        t
    } else {
        seq!['/'] + t
    }
}

/// Normalize a path string to the absolute forward-slash form that
/// `PathBuf::from_str` accepts.
pub fn normalize_path_string(s: &str) -> (r: String)
    ensures
        r@ == normalized_path(s@),
{
    let v = chars_of(s);
    let mut out = String::new();
    if v.len() == 0 {
        push_char(&mut out, '/');
        assert(out@ =~= seq!['/']);
        return out;
    }
    let ghost t = s@.map_values(|c: char| if c == '\\' { '/' } else { c });
    let first_slash = v[0] == '\\' || v[0] == '/';
    if !first_slash {
        push_char(&mut out, '/');
    }
    let ghost base = out@;
    let mut i: usize = 0;
    while i < v.len()
        invariant
            v@ == s@,
            i <= v@.len(),
            t == s@.map_values(|c: char| if c == '\\' { '/' } else { c }),
            out@ == base + t.subrange(0, i as int),
        decreases v@.len() - i,
    {
        let c = if v[i] == '\\' { '/' } else { v[i] };
        push_char(&mut out, c);
        assert(t.subrange(0, i + 1) =~= t.subrange(0, i as int).push(t[i as int]));
        i += 1;
    }
    assert(t.subrange(0, t.len() as int) =~= t);
    if !first_slash {
        assert(base =~= seq!['/']);
    } else {
        assert(base =~= Seq::<char>::empty());
        assert(out@ =~= t);
    }
    out
}

/// Whether `m` occurs in `s`.
pub open spec fn contains_seq(s: Seq<char>, m: Seq<char>) -> bool {
    exists|k: int| 0 <= k && k + m.len() <= s.len() && #[trigger] s.subrange(k, k + m.len()) == m
}

pub open spec fn star() -> Seq<char> {
    seq!['*']
}

/// The glob of the volume layer: `*` and `*.*` match everything, `*x*`
/// matches names containing `x`, `*x` names ending in `x`, `x*` names
/// starting with `x`; anything else matches itself only.
pub open spec fn glob_matches(name: Seq<char>, p: Seq<char>) -> bool {
    if p == star() || p == seq!['*', '.', '*'] {
        true
    } else if p.len() >= 2 && p[0] == '*' && p.last() == '*' {
        contains_seq(name, p.subrange(1, p.len() - 1))
    } else if p.len() >= 1 && p[0] == '*' {
        let suf = p.subrange(1, p.len() as int);
        suf.len() <= name.len() && name.subrange(name.len() - suf.len(), name.len() as int) == suf
    } else if p.len() >= 1 && p.last() == '*' {
        let pre = p.subrange(0, p.len() - 1);
        pre.len() <= name.len() && name.subrange(0, pre.len() as int) == pre
    } else {
        name == p
    }
}

fn range_contains(v: &Vec<char>, m: &[char]) -> (r: bool)
    ensures
        r == contains_seq(v@, m@),
{
    let n = v.len();
    let k = m.len();
    if k > n {
        assert forall|j: int| 0 <= j && j + k <= n implies #[trigger] v@.subrange(j, j + k)
            != m@ by {}
        return false;
    }
    let mut i: usize = 0;
    while i <= n - k
        invariant
            k <= n,
            n == v@.len(),
            k == m@.len(),
            i <= n - k + 1,
            forall|j: int| 0 <= j < i ==> #[trigger] v@.subrange(j, j + k) != m@,
        decreases n - k + 1 - i,
    {
        let mut q: usize = 0;
        let mut same = true;
        while q < k
            invariant
                q <= k,
                i + k <= n,
                n == v@.len(),
                k == m@.len(),
                same == (forall|j: int| 0 <= j < q ==> v@[i + j] == #[trigger] m@[j]),
            decreases k - q,
        {
            if v[i + q] != m[q] {
                same = false;
            }
            q += 1;
        }
        if same {
            assert(v@.subrange(i as int, i + k) =~= m@);
            return true;
        } else {
            assert(v@.subrange(i as int, i + k) != m@) by {
                let j = choose|j: int| 0 <= j < k && v@[i + j] != m@[j];
                assert(v@.subrange(i as int, i + k)[j] == v@[i + j]);
            }
        }
        i += 1;
    }
    assert forall|j: int| 0 <= j && j + k <= n implies #[trigger] v@.subrange(j, j + k) != m@ by {
        assert(j < i);
    }
    false
}

fn chars_eq(a: &Vec<char>, alo: usize, ahi: usize, b: &Vec<char>, blo: usize, bhi: usize) -> (r: bool)
    requires
        alo <= ahi <= a@.len(),
        blo <= bhi <= b@.len(),
    ensures
        r == (a@.subrange(alo as int, ahi as int) == b@.subrange(blo as int, bhi as int)),
{
    if ahi - alo != bhi - blo {
        assert(a@.subrange(alo as int, ahi as int).len() != b@.subrange(blo as int, bhi as int).len());
        return false;
    }
    let mut q: usize = 0;
    while q < ahi - alo
        invariant
            alo <= ahi <= a@.len(),
            blo <= bhi <= b@.len(),
            ahi - alo == bhi - blo,
            q <= ahi - alo,
            forall|j: int| 0 <= j < q ==> #[trigger] a@[alo + j] == b@[blo + j],
        decreases ahi - alo - q,
    {
        if a[alo + q] != b[blo + q] {
            assert(a@.subrange(alo as int, ahi as int)[q as int] != b@.subrange(blo as int, bhi as int)[q as int]);
            return false;
        }
        q += 1;
    }
    assert forall|j: int| 0 <= j < ahi - alo implies a@.subrange(alo as int, ahi as int)[j]
        == b@.subrange(blo as int, bhi as int)[j] by {
        assert(a@[alo + j] == b@[blo + j]);
    }
    assert(a@.subrange(alo as int, ahi as int) =~= b@.subrange(blo as int, bhi as int));
    true
}

/// Whether `name` matches the volume-layer glob `pattern`.
pub fn matches_glob(name: &str, pattern: &str) -> (r: bool)
    ensures
        r == glob_matches(name@, pattern@),
{
    let nv = chars_of(name);
    let pv = chars_of(pattern);
    let n = nv.len();
    let p = pv.len();
    assert(nv@.subrange(0, n as int) == name@);
    assert(pv@.subrange(0, p as int) == pattern@);
    let star_only = p == 1 && pv[0] == '*';
    let star_dot_star = p == 3 && pv[0] == '*' && pv[1] == '.' && pv[2] == '*';
    proof {
        if pattern@ == star() {
            assert(pv@[0] == '*');
        }
        if star_only {
            assert(pv@ =~= star());
        }
        if pattern@ == seq!['*', '.', '*'] {
            assert(pv@[0] == '*' && pv@[1] == '.' && pv@[2] == '*');
        }
        if star_dot_star {
            assert(pv@ =~= seq!['*', '.', '*']);
        }
    }
    if star_only || star_dot_star {
        return true;
    }
    if p >= 2 && pv[0] == '*' && pv[p - 1] == '*' {
        let middle = vstd::slice::slice_subrange(pv.as_slice(), 1, p - 1);
        return range_contains(&nv, middle);
    }
    if p >= 1 && pv[0] == '*' {
        let k = p - 1;
        if k > n {
            return false;
        }
        return chars_eq(&nv, n - k, n, &pv, 1, p);
    }
    if p >= 1 && pv[p - 1] == '*' {
        let k = p - 1;
        if k > n {
            return false;
        }
        return chars_eq(&nv, 0, k, &pv, 0, k);
    }
    chars_eq(&nv, 0, n, &pv, 0, p)
}


/// The directory and file pattern of a glob: the normalized pattern split
/// at its last `/` (the directory is `/` when that is the first
/// character).
pub open spec fn glob_split(pattern: Seq<char>) -> (Seq<char>, Seq<char>) {
    let nz = normalized_path(pattern);
    let slash = last_index(nz, '/');
    let dir = if slash <= 0 {
        seq!['/']
    } else {
        nz.subrange(0, slash)
    };
    (dir, nz.subrange(slash + 1, nz.len() as int))
}

/// Split a glob pattern into its directory and its file-name pattern.
pub fn glob_parts(pattern: &str) -> (r: (String, String))
    ensures
        (r.0@, r.1@) == glob_split(pattern@),
{
    let nz = normalize_path_string(pattern);
    let v = chars_of(nz.as_str());
    let n = v.len();
    assert(v@.subrange(0, n as int) == v@);
    proof {
        lemma_last_index(v@, '/');
        assert(v@[0] == '/');
    }
    let slash = match rfind_char(&v, 0, n, '/') {
        Some(k) => k,
        None => 0,
    };
    let dir = if slash == 0 {
        let mut d = String::new();
        push_char(&mut d, '/');
        assert(d@ =~= seq!['/']);
        d
    } else {
        string_of_range(&v, 0, slash)
    };
    (dir, string_of_range(&v, slash + 1, n))
}

/// The path of directory entry `name` under `dir`.
pub open spec fn glob_path(dir: Seq<char>, name: Seq<char>) -> Seq<char> {
    if dir == seq!['/'] {
        seq!['/'] + name
    } else {
        dir + seq!['/'] + name
    }
}

/// The paths, under `dir`, of the names that match the glob, in order.
pub open spec fn glob_selected(dir: Seq<char>, names: Seq<Seq<char>>, p: Seq<char>) -> Seq<Seq<char>>
    decreases names.len(),
{
    if names.len() == 0 {
        Seq::empty()
    } else {
        let prev = glob_selected(dir, names.drop_last(), p);
        if glob_matches(names.last(), p) {
            prev.push(glob_path(dir, names.last()))
        } else {
            prev
        }
    }
}

pub open spec fn string_views(v: Seq<String>) -> Seq<Seq<char>> {
    v.map_values(|s: String| s@)
}

/// The paths of the directory entries of `dir` matching `file_pattern`.
pub fn glob_select(dir: &str, names: &[String], file_pattern: &str) -> (r: Vec<String>)
    ensures
        string_views(r@) == glob_selected(dir@, string_views(names@), file_pattern@),
{
    let dv = chars_of(dir);
    let root = dv.len() == 1 && dv[0] == '/';
    proof {
        if dir@ == seq!['/'] {
            assert(dv@[0] == '/');
        }
        if root {
            assert(dv@ =~= seq!['/']);
        }
    }
    let mut out: Vec<String> = Vec::new();
    let mut i: usize = 0;
    while i < names.len()
        invariant
            i <= names@.len(),
            dv@ == dir@,
            root == (dir@ == seq!['/']),
            string_views(out@) == glob_selected(
                dir@,
                string_views(names@.subrange(0, i as int)),
                file_pattern@,
            ),
        decreases names@.len() - i,
    {
        let name = &names[i];
        proof {
            let pre = string_views(names@.subrange(0, i + 1));
            assert(pre.drop_last() =~= string_views(names@.subrange(0, i as int)));
            assert(pre.last() == name@);
        }
        if matches_glob(name.as_str(), file_pattern) {
            let mut path = String::new();
            if !root {
                let mut k: usize = 0;
                while k < dv.len()
                    invariant
                        k <= dv@.len(),
                        path@ == dv@.subrange(0, k as int),
                    decreases dv@.len() - k,
                {
                    push_char(&mut path, dv[k]);
                    assert(dv@.subrange(0, k + 1) == dv@.subrange(0, k as int).push(dv@[k as int]));
                    k += 1;
                }
                assert(dv@.subrange(0, dv@.len() as int) == dv@);
            }
            push_char(&mut path, '/');
            let nv = chars_of(name.as_str());
            let mut k: usize = 0;
            let ghost base = path@;
            while k < nv.len()
                invariant
                    k <= nv@.len(),
                    path@ == base + nv@.subrange(0, k as int),
                decreases nv@.len() - k,
            {
                push_char(&mut path, nv[k]);
                assert(nv@.subrange(0, k + 1) == nv@.subrange(0, k as int).push(nv@[k as int]));
                k += 1;
            }
            assert(nv@.subrange(0, nv@.len() as int) == nv@);
            assert(path@ =~= glob_path(dir@, name@));
            let ghost before = string_views(out@);
            out.push(path);
            assert(string_views(out@) =~= before.push(glob_path(dir@, name@)));
        }
        i += 1;
    }
    assert(names@.subrange(0, names@.len() as int) == names@);
    out
}

} // verus!
