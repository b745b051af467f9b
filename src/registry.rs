use vstd::prelude::*;
use crate::text::same_text;

verus! {

/// What the manifest's `date` field denotes when it is read with the format
/// `YYYY-MM-DD HH:MM`: year, month, day, hour and minute, or nothing when the
/// text does not parse.
pub uninterp spec fn manifest_date(s: Seq<char>) -> Option<(int, int, int, int, int)>;

/// A minute-precision timestamp, as the manifest gives it.
#[derive(Debug, Clone, Copy, PartialEq, Eq)]
pub struct Timestamp {
    pub year: i32,
    pub month: u32,
    pub day: u32,
    pub hour: u32,
    pub minute: u32,
}

impl Timestamp {
    pub open spec fn view(self) -> (int, int, int, int, int) {
        (self.year as int, self.month as int, self.day as int, self.hour as int, self.minute as int)
    }

    /// Month, day, hour and minute lie in their calendar ranges.
    pub open spec fn wf(self) -> bool {
        &&& 1 <= self.month <= 12
        &&& 1 <= self.day <= 31
        &&& self.hour < 24
        &&& self.minute < 60
    }
}

pub open spec fn opt_text(o: Option<String>) -> Option<Seq<char>> {
    match o {
        Some(s) => Some(s@),
        None => None,
    }
}

pub open spec fn opt_stamp(o: Option<Timestamp>) -> Option<(int, int, int, int, int)> {
    match o {
        Some(t) => Some(t.view()),
        None => None,
    }
}

/// Relies on `chrono::NaiveDateTime::parse_from_str` with the format
/// `%Y-%m-%d %H:%M`, and on chrono's accessors, whose ranges its documentation gives.
#[verifier::external_body]
pub(crate) fn parse_manifest_date(s: &str) -> (r: Option<Timestamp>)
    ensures
        opt_stamp(r) == manifest_date(s@),
        r is Some ==> r->0.wf(),
{
    chrono::NaiveDateTime::parse_from_str(s, "%Y-%m-%d %H:%M").ok().map(|d| Timestamp {
        year: chrono::Datelike::year(&d),
        month: chrono::Datelike::month(&d),
        day: chrono::Datelike::day(&d),
        hour: chrono::Timelike::hour(&d),
        minute: chrono::Timelike::minute(&d),
    })
}

/// The identity of a page: the path of the directory that holds it, and its name.
#[derive(Debug, Clone, PartialEq, Eq, Hash)]
pub struct PageKey {
    pub section: String,
    pub name: String,
}

impl PageKey {
    pub open spec fn view(self) -> (Seq<char>, Seq<char>) {
        (self.section@, self.name@)
    }
}

/// What the registry knows of a page.
#[derive(Debug, Clone, PartialEq)]
pub struct PageData {
    /// The resolved route, fixed when the tree is built.
    pub path: String,
    /// The source file in the remote store; a page without one cannot be fetched.
    pub file: Option<String>,
    pub last_updated: Option<Timestamp>,
    /// The Markdown source, once it has been obtained.
    pub raw_content: Option<String>,
}

/// The abstract content of a `PageData`.
pub struct PageView {
    pub path: Seq<char>,
    pub file: Option<Seq<char>>,
    pub last_updated: Option<(int, int, int, int, int)>,
    pub raw_content: Option<Seq<char>>,
}

impl PageData {
    pub open spec fn view(self) -> PageView {
        PageView {
            path: self.path@,
            file: opt_text(self.file),
            last_updated: opt_stamp(self.last_updated),
            raw_content: opt_text(self.raw_content),
        }
    }
}

pub type EntryView = ((Seq<char>, Seq<char>), PageView);

/// The index of the last entry of `s` with key `k`, or -1 when there is none.
pub open spec fn key_pos(s: Seq<EntryView>, k: (Seq<char>, Seq<char>)) -> int
    decreases s.len(),
{
    if s.len() == 0 {
        -1
    } else if s.last().0 == k {
        s.len() - 1
    } else {
        key_pos(s.drop_last(), k)
    }
}

/// `s` with the value under `k` replaced by `v`, or `(k, v)` added at the end
/// when `k` is new: an insert into a map kept in insertion order.
pub open spec fn upsert(s: Seq<EntryView>, k: (Seq<char>, Seq<char>), v: PageView) -> Seq<EntryView> {
    let i = key_pos(s, k);
    if i >= 0 {
        s.update(i, (k, v))
    } else {
        s.push((k, v))
    }
}

/// The value stored under `k`, if any.
pub open spec fn lookup(s: Seq<EntryView>, k: (Seq<char>, Seq<char>)) -> Option<PageView> {
    let i = key_pos(s, k);
    if i >= 0 {
        Some(s[i].1)
    } else {
        None
    }
}

pub open spec fn unique_keys(s: Seq<EntryView>) -> bool {
    forall|i: int, j: int| 0 <= i < s.len() && 0 <= j < s.len() && i != j ==> s[i].0 != s[j].0
}

pub proof fn lemma_key_pos(s: Seq<EntryView>, k: (Seq<char>, Seq<char>))
    ensures
        -1 <= key_pos(s, k) < s.len(),
        key_pos(s, k) >= 0 ==> s[key_pos(s, k)].0 == k,
        key_pos(s, k) < 0 ==> forall|i: int| 0 <= i < s.len() ==> s[i].0 != k,
        key_pos(s, k) >= 0 ==> forall|i: int| key_pos(s, k) < i < s.len() ==> s[i].0 != k,
    decreases s.len(),
{
    if s.len() > 0 && s.last().0 != k {
        let t = s.drop_last();
        lemma_key_pos(t, k);
        assert forall|i: int| 0 <= i < t.len() implies #[trigger] s[i] == t[i] by {}
    }
}

pub proof fn lemma_key_pos_unique(s: Seq<EntryView>, i: int)
    requires
        unique_keys(s),
        0 <= i < s.len(),
    ensures
        key_pos(s, s[i].0) == i,
{
    lemma_key_pos(s, s[i].0);
}

pub proof fn lemma_upsert_unique(s: Seq<EntryView>, k: (Seq<char>, Seq<char>), v: PageView)
    requires
        unique_keys(s),
    ensures
        unique_keys(upsert(s, k, v)),
        upsert(s, k, v).len() == s.len() + if key_pos(s, k) >= 0 { 0int } else { 1int },
{
    lemma_key_pos(s, k);
}

pub proof fn lemma_has_key(s: Seq<EntryView>, k: (Seq<char>, Seq<char>))
    ensures
        key_pos(s, k) >= 0 <==> exists|i: int| 0 <= i < s.len() && #[trigger] s[i].0 == k,
{
    lemma_key_pos(s, k);
    if key_pos(s, k) >= 0 {
        assert(s[key_pos(s, k)].0 == k);
    }
}

/// After an upsert of `k`, exactly the keys held before and `k` are held.
pub proof fn lemma_upsert_keys(s: Seq<EntryView>, k: (Seq<char>, Seq<char>), v: PageView, k2: (Seq<char>, Seq<char>))
    ensures
        key_pos(upsert(s, k, v), k2) >= 0 <==> (key_pos(s, k2) >= 0 || k2 == k),
{
    let u = upsert(s, k, v);
    lemma_key_pos(s, k);
    lemma_has_key(s, k2);
    lemma_has_key(u, k2);
    if key_pos(s, k2) >= 0 {
        let i = choose|i: int| 0 <= i < s.len() && #[trigger] s[i].0 == k2;
        assert(u[i].0 == k2);
    }
    if k2 == k {
        if key_pos(s, k) >= 0 {
            assert(u[key_pos(s, k)].0 == k2);
        } else {
            assert(u[s.len() as int].0 == k2);
        }
    }
    if key_pos(u, k2) >= 0 {
        let j = choose|j: int| 0 <= j < u.len() && #[trigger] u[j].0 == k2;
        if j < s.len() && k2 != k {
            assert(s[j].0 == k2);
        }
    }
}

/// `key_pos` depends on the keys alone.
pub proof fn lemma_key_pos_same_keys(s: Seq<EntryView>, t: Seq<EntryView>, k: (Seq<char>, Seq<char>))
    requires
        s.len() == t.len(),
        forall|i: int| 0 <= i < s.len() ==> #[trigger] s[i].0 == t[i].0,
    ensures
        key_pos(s, k) == key_pos(t, k),
    decreases s.len(),
{
    if s.len() > 0 {
        let s2 = s.drop_last();
        let t2 = t.drop_last();
        assert forall|i: int| 0 <= i < s2.len() implies #[trigger] s2[i].0 == t2[i].0 by {
            assert(s[i].0 == t[i].0);
        }
        assert(s.last().0 == t.last().0);
        lemma_key_pos_same_keys(s2, t2, k);
    }
}

/// After an upsert of `k`, `k` maps to the new value and every other key to
/// what it mapped to before.
pub proof fn lemma_upsert_lookup(s: Seq<EntryView>, k: (Seq<char>, Seq<char>), v: PageView, k2: (Seq<char>, Seq<char>))
    ensures
        lookup(upsert(s, k, v), k2) == if k2 == k {
            Some(v)
        } else {
            lookup(s, k2)
        },
{
    lemma_key_pos(s, k);
    let i = key_pos(s, k);
    let u = upsert(s, k, v);
    lemma_key_pos(s, k2);
    if i >= 0 {
        assert forall|j: int| 0 <= j < s.len() implies #[trigger] s[j].0 == u[j].0 by {}
        lemma_key_pos_same_keys(s, u, k2);
        if k2 != k && key_pos(s, k2) >= 0 {
            assert(key_pos(s, k2) != i);
            assert(u[key_pos(s, k2)] == s[key_pos(s, k2)]);
        }
    } else {
        assert(u.drop_last() =~= s);
        if k2 != k && key_pos(s, k2) >= 0 {
            assert(u[key_pos(s, k2)] == s[key_pos(s, k2)]);
        }
    }
}

/// The page registry: page data in insertion order, each key at most once.
#[derive(Debug)]
pub struct Registry {
    entries: Vec<(PageKey, PageData)>,
}

impl Registry {
    pub closed spec fn view(&self) -> Seq<EntryView> {
        self.entries@.map_values(|e: (PageKey, PageData)| (e.0.view(), e.1.view()))
    }

    pub open spec fn wf(&self) -> bool {
        unique_keys(self.view())
    }

    pub fn new() -> (r: Registry)
        ensures
            r.view() == Seq::<EntryView>::empty(),
            r.wf(),
    {
        let r = Registry { entries: Vec::new() };
        assert(r.view() =~= Seq::<EntryView>::empty());
        r
    }

    pub fn len(&self) -> (r: usize)
        ensures
            r == self.view().len(),
    {
        self.entries.len()
    }

    /// The key and the data of the entry at `i`.
    pub fn entry(&self, i: usize) -> (r: (&PageKey, &PageData))
        requires
            i < self.view().len(),
        ensures
            self.view()[i as int] == (r.0.view(), r.1.view()),
    {
        let e = &self.entries[i];
        (&e.0, &e.1)
    }

    /// Sets the Markdown source of the entry at `i`.
    pub fn set_raw_content(&mut self, i: usize, content: String)
        requires
            i < old(self).view().len(),
            old(self).wf(),
        ensures
            final(self).wf(),
            final(self).view() == old(self).view().update(
                i as int,
                (
                    old(self).view()[i as int].0,
                    PageView { raw_content: Some(content@), ..old(self).view()[i as int].1 },
                ),
            ),
    {
        let ghost s = self.view();
        let (k, d) = self.entries.remove(i);
        let d2 = PageData { raw_content: Some(content), ..d };
        self.entries.insert(i, (k, d2));
        assert(self.view() =~= s.update(
            i as int,
            (s[i as int].0, PageView { raw_content: Some(content@), ..s[i as int].1 }),
        ));
    }

    /// Where the entry with this key stands, if there is one.
    pub fn position(&self, section: &str, name: &str) -> (r: Option<usize>)
        ensures
            key_pos(self.view(), (section@, name@)) >= 0 ==> r is Some && r->0 as int == key_pos(
                self.view(),
                (section@, name@),
            ),
            key_pos(self.view(), (section@, name@)) < 0 ==> r is None,
    {
        let ghost k = (section@, name@);
        let mut i: usize = self.entries.len();
        assert(self.view().subrange(0, i as int) =~= self.view());
        while i > 0
            invariant
                i <= self.entries.len(),
                k == (section@, name@),
                key_pos(self.view(), k) == key_pos(self.view().subrange(0, i as int), k),
            decreases i,
        {
            let e = &self.entries[i - 1];
            let ghost pre = self.view().subrange(0, i as int);
            assert(pre.last() == (e.0.view(), e.1.view()));
            assert(pre.last().0 == (e.0.section@, e.0.name@));
            let same_section = same_text(e.0.section.as_str(), section);
            let same_name = same_text(e.0.name.as_str(), name);
            if same_section && same_name {
                assert(pre.last().0 == k);
                return Some(i - 1);
            }
            assert(pre.last().0 != k);
            assert(pre.drop_last() =~= self.view().subrange(0, i - 1));
            assert(key_pos(pre, k) == key_pos(pre.drop_last(), k));
            i = i - 1;
        }
        None
    }

    /// Stores `data` under `key`, replacing what was there.
    pub fn insert(&mut self, key: PageKey, data: PageData)
        requires
            old(self).wf(),
        ensures
            final(self).wf(),
            final(self).view() == upsert(old(self).view(), key.view(), data.view()),
    {
        let ghost s = self.view();
        proof {
            lemma_upsert_unique(s, key.view(), data.view());
            lemma_key_pos(s, key.view());
        }
        assert(s.len() == self.entries.len());
        let pos = self.position(key.section.as_str(), key.name.as_str());
        match pos {
            Some(i) => {
                assert(i as int == key_pos(s, key.view()));
                self.entries.set(i, (key, data));
                assert(self.view() =~= upsert(s, key.view(), data.view()));
            },
            None => {
                self.entries.push((key, data));
                assert(self.view() =~= upsert(s, key.view(), data.view()));
            },
        }
    }
}

} // verus!
