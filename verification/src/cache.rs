//! The font index and its modification-time-validated cache: a name points
//! at the candidate files that declare it, and a cache entry is trusted only
//! while the file's modification time still matches.

use vstd::prelude::*;
use crate::ext::{lower_of, to_lowercase};
use crate::fontbin::{font_names_spec, parse_font_names_from_bytes};
use crate::text::eq_str;

verus! {

/// What the cache remembers of one font file.
pub struct CacheEntry {
    pub modified: u64,
    pub names: Vec<String>,
}

/// The persistent cache: one entry per font file path.
pub struct CacheFile {
    pub entries: Vec<(String, CacheEntry)>,
}

/// A name maps to the candidate files that declare it, in discovery order.
pub struct FontIndex {
    pub entries: Vec<(String, Vec<String>)>,
}

/// One font file as handed to the index builder: its path, its current
/// modification time if it has one, and its raw bytes (empty if unreadable).
pub struct FontFileData {
    pub path: String,
    pub mtime: Option<u64>,
    pub data: Vec<u8>,
}

impl CacheFile {
    /// The entries as plain values.
    pub open spec fn view_spec(&self) -> Seq<(Seq<char>, u64, Seq<Seq<char>>)> {
        Seq::new(
            self.entries@.len(),
            |i: int|
                (self.entries@[i].0@, self.entries@[i].1.modified, self.entries@[i].1.names.deep_view()),
        )
    }

    pub fn new() -> (r: CacheFile)
        ensures
            r.view_spec() == Seq::<(Seq<char>, u64, Seq<Seq<char>>)>::empty(),
    {
        let r = CacheFile { entries: Vec::new() };
        proof {
            assert(r.view_spec() =~= Seq::<(Seq<char>, u64, Seq<Seq<char>>)>::empty());
        }
        r
    }
}

/// The stored pair of the first entry for `path`, if one exists.
pub open spec fn cview_lookup(
    v: Seq<(Seq<char>, u64, Seq<Seq<char>>)>,
    path: Seq<char>,
    i: int,
) -> Option<(u64, Seq<Seq<char>>)>
    decreases v.len() - i,
{
    if 0 <= i < v.len() {
        if v[i].0 == path {
            Option::Some((v[i].1, v[i].2))
        } else {
            cview_lookup(v, path, i + 1)
        }
    } else {
        Option::None
    }
}

/// The position of the first entry for `path`.
pub open spec fn cview_pos(
    v: Seq<(Seq<char>, u64, Seq<Seq<char>>)>,
    path: Seq<char>,
    i: int,
) -> Option<int>
    decreases v.len() - i,
{
    if 0 <= i < v.len() {
        if v[i].0 == path {
            Option::Some(i)
        } else {
            cview_pos(v, path, i + 1)
        }
    } else {
        Option::None
    }
}

/// Store `(path, m, names)`, overwriting the entry for `path` or appending a
/// new one.
pub open spec fn cview_upsert(
    v: Seq<(Seq<char>, u64, Seq<Seq<char>>)>,
    path: Seq<char>,
    m: u64,
    names: Seq<Seq<char>>,
) -> Seq<(Seq<char>, u64, Seq<Seq<char>>)> {
    match cview_pos(v, path, 0) {
        Option::Some(k) => v.update(k, (path, m, names)),
        Option::None => v.push((path, m, names)),
    }
}

proof fn lemma_cview_pos_props(v: Seq<(Seq<char>, u64, Seq<Seq<char>>)>, path: Seq<char>, i: int)
    requires
        0 <= i <= v.len(),
    ensures
        match cview_pos(v, path, i) {
            Option::Some(k) => i <= k < v.len() && v[k].0 == path && cview_lookup(v, path, i)
                == Option::Some((v[k].1, v[k].2)),
            Option::None => cview_lookup(v, path, i) is None,
        },
    decreases v.len() - i,
{
    if 0 <= i < v.len() && v[i].0 != path {
        lemma_cview_pos_props(v, path, i + 1);
    }
}

impl CacheFile {
    /// Fetch the stored modification time and names for `path`.
    #[verifier::loop_isolation(false)]
    pub fn get(&self, path: &str) -> (r: Option<(u64, Vec<String>)>)
        ensures
            match r {
                Some(p) => cview_lookup(self.view_spec(), path@, 0) == Option::Some(
                    (p.0, p.1.deep_view()),
                ),
                None => cview_lookup(self.view_spec(), path@, 0) is None,
            },
    {
        let n = self.entries.len();
        let mut i: usize = 0;
        while i < n
            invariant
                n == self.entries@.len(),
                0 <= i <= n,
                cview_lookup(self.view_spec(), path@, 0) == cview_lookup(
                    self.view_spec(),
                    path@,
                    i as int,
                ),
            decreases n - i,
        {
            if eq_str(self.entries[i].0.as_str(), path) {
                let names = clone_names(&self.entries[i].1.names);
                return Some((self.entries[i].1.modified, names));
            }
            i += 1;
        }
        None
    }

    /// Store `(modified, names)` for `path`, overwriting any previous entry.
    #[verifier::loop_isolation(false)]
    pub fn upsert(&mut self, path: &str, modified: u64, names: &Vec<String>)
        ensures
            final(self).view_spec() == cview_upsert(
                old(self).view_spec(),
                path@,
                modified,
                names.deep_view(),
            ),
    {
        let ghost v0 = self.view_spec();
        let n = self.entries.len();
        let mut i: usize = 0;
        while i < n
            invariant
                self == old(self),
                n == self.entries@.len(),
                0 <= i <= n,
                cview_pos(self.view_spec(), path@, 0) == cview_pos(
                    self.view_spec(),
                    path@,
                    i as int,
                ),
            decreases n - i,
        {
            if eq_str(self.entries[i].0.as_str(), path) {
                proof {
                    assert(cview_pos(v0, path@, 0) == Option::Some(i as int));
                }
                let entry = CacheEntry { modified, names: clone_names(names) };
                self.entries.remove(i);
                self.entries.insert(i, (path.to_owned(), entry));
                proof {
                    assert(self.view_spec() =~= cview_upsert(
                        v0,
                        path@,
                        modified,
                        names.deep_view(),
                    ));
                }
                return ;
            }
            i += 1;
        }
        proof {
            assert(cview_pos(v0, path@, 0) is None);
        }
        let entry = CacheEntry { modified, names: clone_names(names) };
        self.entries.push((path.to_owned(), entry));
        proof {
            assert(self.view_spec() =~= cview_upsert(v0, path@, modified, names.deep_view()));
        }
    }
}

/// Copy a list of names.
#[verifier::loop_isolation(false)]
pub fn clone_names(v: &Vec<String>) -> (r: Vec<String>)
    ensures
        r@ == v@,
{
    let mut out: Vec<String> = Vec::new();
    let n = v.len();
    let mut i: usize = 0;
    while i < n
        invariant
            n == v@.len(),
            0 <= i <= n,
            out@ == v@.take(i as int),
        decreases n - i,
    {
        out.push(v[i].clone());
        proof {
            assert(out@ =~= v@.take(i + 1));
        }
        i += 1;
    }
    proof {
        assert(out@ =~= v@);
    }
    out
}

impl FontIndex {
    /// The index as plain values.
    pub open spec fn view_spec(&self) -> Seq<(Seq<char>, Seq<Seq<char>>)> {
        Seq::new(
            self.entries@.len(),
            |i: int| (self.entries@[i].0@, self.entries@[i].1.deep_view()),
        )
    }

    pub fn new() -> (r: FontIndex)
        ensures
            r.view_spec() == Seq::<(Seq<char>, Seq<Seq<char>>)>::empty(),
    {
        let r = FontIndex { entries: Vec::new() };
        proof {
            assert(r.view_spec() =~= Seq::<(Seq<char>, Seq<Seq<char>>)>::empty());
        }
        r
    }
}

/// The candidate list of the first entry for `key`, if one exists.
pub open spec fn iview_lookup(
    v: Seq<(Seq<char>, Seq<Seq<char>>)>,
    key: Seq<char>,
    i: int,
) -> Option<Seq<Seq<char>>>
    decreases v.len() - i,
{
    if 0 <= i < v.len() {
        if v[i].0 == key {
            Option::Some(v[i].1)
        } else {
            iview_lookup(v, key, i + 1)
        }
    } else {
        Option::None
    }
}

pub open spec fn iview_pos(v: Seq<(Seq<char>, Seq<Seq<char>>)>, key: Seq<char>, i: int) -> Option<
    int,
>
    decreases v.len() - i,
{
    if 0 <= i < v.len() {
        if v[i].0 == key {
            Option::Some(i)
        } else {
            iview_pos(v, key, i + 1)
        }
    } else {
        Option::None
    }
}

/// Append `path` to the candidate list of `key`, creating the list at the
/// end of the index if the key is new.
pub open spec fn iview_append(
    v: Seq<(Seq<char>, Seq<Seq<char>>)>,
    key: Seq<char>,
    path: Seq<char>,
) -> Seq<(Seq<char>, Seq<Seq<char>>)> {
    match iview_pos(v, key, 0) {
        Option::Some(k) => v.update(k, (key, v[k].1.push(path))),
        Option::None => v.push((key, seq![path])),
    }
}

proof fn lemma_iview_pos_props(v: Seq<(Seq<char>, Seq<Seq<char>>)>, key: Seq<char>, i: int)
    requires
        0 <= i <= v.len(),
    ensures
        match iview_pos(v, key, i) {
            Option::Some(k) => i <= k < v.len() && v[k].0 == key && iview_lookup(v, key, i)
                == Option::Some(v[k].1),
            Option::None => iview_lookup(v, key, i) is None,
        },
    decreases v.len() - i,
{
    if 0 <= i < v.len() && v[i].0 != key {
        lemma_iview_pos_props(v, key, i + 1);
    }
}

impl FontIndex {
    /// The candidate files for a (lowercased) key, in discovery order.
    #[verifier::loop_isolation(false)]
    pub fn get(&self, key: &str) -> (r: Option<Vec<String>>)
        ensures
            r.deep_view() == iview_lookup(self.view_spec(), key@, 0),
    {
        let n = self.entries.len();
        let mut i: usize = 0;
        while i < n
            invariant
                n == self.entries@.len(),
                0 <= i <= n,
                iview_lookup(self.view_spec(), key@, 0) == iview_lookup(
                    self.view_spec(),
                    key@,
                    i as int,
                ),
            decreases n - i,
        {
            if eq_str(self.entries[i].0.as_str(), key) {
                return Some(clone_names(&self.entries[i].1));
            }
            i += 1;
        }
        None
    }

    /// Record `path` as one more candidate for `key`.
    #[verifier::loop_isolation(false)]
    pub fn append_candidate(&mut self, key: String, path: &str)
        ensures
            final(self).view_spec() == iview_append(old(self).view_spec(), key@, path@),
    {
        let ghost v0 = self.view_spec();
        let n = self.entries.len();
        let mut i: usize = 0;
        while i < n
            invariant
                self == old(self),
                n == self.entries@.len(),
                0 <= i <= n,
                iview_pos(self.view_spec(), key@, 0) == iview_pos(
                    self.view_spec(),
                    key@,
                    i as int,
                ),
            decreases n - i,
        {
            if eq_str(self.entries[i].0.as_str(), key.as_str()) {
                proof {
                    assert(iview_pos(v0, key@, 0) == Option::Some(i as int));
                }
                let ghost old_files = self.entries@[i as int].1.deep_view();
                let (k, mut files) = self.entries.remove(i);
                files.push(path.to_owned());
                self.entries.insert(i, (k, files));
                proof {
                    assert(files.deep_view() =~= old_files.push(path@));
                    assert(self.entries@ =~= old(self).entries@.update(i as int, (k, files)));
                    assert(self.view_spec() =~= iview_append(v0, key@, path@));
                }
                return ;
            }
            i += 1;
        }
        proof {
            assert(iview_pos(v0, key@, 0) is None);
        }
        let mut files: Vec<String> = Vec::new();
        files.push(path.to_owned());
        proof {
            assert(files.deep_view() =~= seq![path@]);
        }
        self.entries.push((key, files));
        proof {
            assert(self.view_spec() =~= iview_append(v0, key@, path@));
        }
    }
}

/// One font file as the specification sees it: path, modification time,
/// raw bytes.
pub type FontInput = (Seq<char>, Option<u64>, Seq<u8>);

pub open spec fn fdata_view(f: FontFileData) -> FontInput {
    (f.path@, f.mtime, f.data@)
}

pub open spec fn fdatas_view(v: Seq<FontFileData>) -> Seq<FontInput> {
    Seq::new(v.len(), |i: int| fdata_view(v[i]))
}

/// Did the cache serve this file: an entry exists and its stored time equals
/// the file's current one.
pub open spec fn cache_hit(f: FontInput, cv: Seq<(Seq<char>, u64, Seq<Seq<char>>)>) -> bool {
    match cview_lookup(cv, f.0, 0) {
        Option::Some(p) => f.1 == Option::Some(p.0),
        Option::None => false,
    }
}

/// The names the index builder uses for a file: the cached set on a hit, a
/// fresh parse of the bytes otherwise.
pub open spec fn names_used_spec(
    f: FontInput,
    cv: Seq<(Seq<char>, u64, Seq<Seq<char>>)>,
    use_cache: bool,
) -> Seq<Seq<char>> {
    if use_cache && cache_hit(f, cv) {
        match cview_lookup(cv, f.0, 0) {
            Option::Some(p) => p.1,
            Option::None => Seq::empty(),
        }
    } else {
        font_names_spec(f.2)
    }
}

pub open spec fn mtime_or_zero(f: FontInput) -> u64 {
    match f.1 {
        Option::Some(m) => m,
        Option::None => 0,
    }
}

/// Insert each of `names` (from index `j` on) for file `path` into the
/// index under its Unicode-lowercased key.
pub open spec fn ins_names(
    ix: Seq<(Seq<char>, Seq<Seq<char>>)>,
    names: Seq<Seq<char>>,
    path: Seq<char>,
    j: int,
) -> Seq<(Seq<char>, Seq<Seq<char>>)>
    decreases names.len() - j,
{
    if 0 <= j < names.len() {
        ins_names(iview_append(ix, lower_of(names[j]), path), names, path, j + 1)
    } else {
        ix
    }
}

/// The index and cache after the files from `i` on are processed.
pub open spec fn build_fold(
    files: Seq<FontInput>,
    use_cache: bool,
    ix: Seq<(Seq<char>, Seq<Seq<char>>)>,
    cv: Seq<(Seq<char>, u64, Seq<Seq<char>>)>,
    i: int,
) -> (Seq<(Seq<char>, Seq<Seq<char>>)>, Seq<(Seq<char>, u64, Seq<Seq<char>>)>)
    decreases files.len() - i,
{
    if 0 <= i < files.len() {
        let f = files[i];
        let used = names_used_spec(f, cv, use_cache);
        let cv2 = if use_cache && !cache_hit(f, cv) {
            cview_upsert(cv, f.0, mtime_or_zero(f), used)
        } else {
            cv
        };
        let ix2 = ins_names(ix, used, f.0, 0);
        build_fold(files, use_cache, ix2, cv2, i + 1)
    } else {
        (ix, cv)
    }
}

/// Build the name index over the given font files. With the cache enabled, a
/// file whose modification time still matches its entry is served from the
/// cache; otherwise its bytes are parsed and the entry rewritten. Every name
/// is inserted under its lowercased key, candidates in discovery order.
#[verifier::loop_isolation(false)]
pub fn build_font_index(
    font_files: &Vec<FontFileData>,
    use_cache: bool,
    cache: &mut CacheFile,
) -> (r: FontIndex)
    ensures
        r.view_spec() == build_fold(
            fdatas_view(font_files@),
            use_cache,
            Seq::empty(),
            old(cache).view_spec(),
            0,
        ).0,
        final(cache).view_spec() == build_fold(
            fdatas_view(font_files@),
            use_cache,
            Seq::empty(),
            old(cache).view_spec(),
            0,
        ).1,
{
    let mut index = FontIndex::new();
    let n = font_files.len();
    let mut i: usize = 0;
    while i < n
        invariant
            n == font_files@.len(),
            0 <= i <= n,
            build_fold(fdatas_view(font_files@), use_cache, Seq::empty(), old(cache).view_spec(), 0)
                == build_fold(
                fdatas_view(font_files@),
                use_cache,
                index.view_spec(),
                cache.view_spec(),
                i as int,
            ),
        decreases n - i,
    {
        let ghost f = fdata_view(font_files@[i as int]);
        let ghost cv0 = cache.view_spec();
        let ghost ix0 = index.view_spec();
        let path = font_files[i].path.as_str();
        let mut served_from_cache = false;
        let mut names: Vec<String> = Vec::new();
        if use_cache {
            match cache.get(path) {
                Some((m, cached)) => {
                    let hit = match font_files[i].mtime {
                        Some(fm) => fm == m,
                        None => false,
                    };
                    if hit {
                        served_from_cache = true;
                        names = cached;
                    }
                },
                None => {},
            }
        }
        proof {
            assert(served_from_cache == (use_cache && cache_hit(f, cv0)));
        }
        if !served_from_cache {
            names = parse_font_names_from_bytes(&font_files[i].data);
        }
        proof {
            assert(names.deep_view() == names_used_spec(f, cv0, use_cache));
        }
        if use_cache && !served_from_cache {
            let m = match font_files[i].mtime {
                Some(fm) => fm,
                None => 0,
            };
            cache.upsert(path, m, &names);
        }
        proof {
            assert(cache.view_spec() == (if use_cache && !cache_hit(f, cv0) {
                cview_upsert(cv0, f.0, mtime_or_zero(f), names_used_spec(f, cv0, use_cache))
            } else {
                cv0
            }));
        }
        let m2 = names.len();
        let mut q: usize = 0;
        while q < m2
            invariant
                m2 == names@.len(),
                0 <= q <= m2,
                ins_names(ix0, names.deep_view(), f.0, 0) == ins_names(
                    index.view_spec(),
                    names.deep_view(),
                    f.0,
                    q as int,
                ),
                i < n,
                f == fdata_view(font_files@[i as int]),
            decreases m2 - q,
        {
            let key = to_lowercase(names[q].as_str());
            proof {
                assert(names@[q as int]@ == names.deep_view()[q as int]);
            }
            index.append_candidate(key, font_files[i].path.as_str());
            q += 1;
        }
        proof {
            assert(index.view_spec() == ins_names(ix0, names.deep_view(), f.0, 0));
            assert(build_fold(fdatas_view(font_files@), use_cache, ix0, cv0, i as int)
                == build_fold(
                fdatas_view(font_files@),
                use_cache,
                index.view_spec(),
                cache.view_spec(),
                i + 1,
            ));
        }
        i += 1;
    }
    index
}

} // verus!
