//! Reconciliation of the two halves of a trash root: the `files/` listing and
//! the `info/` listing are paired by shared identifier into healthy entries,
//! and every identifier present on only one side, or carrying a corrupt
//! record, is reported as degraded — never silently dropped and never
//! silently treated as healthy.

use vstd::prelude::*;
use crate::datetime::date_le;
use crate::info::InfoModel;
use crate::info::ParseError;
use crate::info::TrashInfo;
use crate::info::spec_parse_info;
use crate::strutil::lex_le;
use crate::strutil::match_at;

verus! {

/// Whether a stored item is a plain file or a directory.
#[derive(Clone, Copy, Debug, PartialEq, Eq, Structural)]
pub enum EntryKind {
    File,
    Directory,
}

/// The kind of a stored item, from the directory flag of its listing.
pub open spec fn kind_of(is_dir: bool) -> EntryKind {
    if is_dir {
        EntryKind::Directory
    } else {
        EntryKind::File
    }
}

/// A healthy logical trash entry: a stored item paired with its parsed
/// metadata record, keyed by their shared identifier.
#[derive(Clone, Debug)]
pub struct TrashEntry {
    pub id: String,
    pub kind: EntryKind,
    pub info: TrashInfo,
}

/// The mathematical content of a trash entry.
pub ghost struct EntryModel {
    pub id: Seq<char>,
    pub kind: EntryKind,
    pub info: InfoModel,
}

impl TrashEntry {
    /// The mathematical content of this entry.
    pub open spec fn model(self) -> EntryModel {
        EntryModel { id: self.id@, kind: self.kind, info: self.info.model() }
    }
}

/// The fixed suffix that marks a metadata file inside `info/`.
pub open spec fn info_suffix() -> Seq<char> {
    seq!['.', 't', 'r', 'a', 's', 'h', 'i', 'n', 'f', 'o']
}

/// The identifier a metadata file name stands for: the name with the fixed
/// suffix stripped, or nothing when the name does not carry the suffix.
pub open spec fn info_id_of(name: Seq<char>) -> Option<Seq<char>> {
    if name.len() > 10 && name.skip(name.len() - 10) == info_suffix() {
        Some(name.take(name.len() - 10))
    } else {
        None
    }
}

/// The identifier under which a metadata file name is reported: what it
/// stands for, or — for a name without the suffix, which can pair with
/// nothing — the name itself.
pub open spec fn info_side_id(name: Seq<char>) -> Seq<char> {
    match info_id_of(name) {
        Some(id) => id,
        None => name,
    }
}

/// The mathematical content of a `files/` listing: each name with its
/// directory flag.
pub open spec fn files_model(l: Seq<(String, bool)>) -> Seq<(Seq<char>, bool)> {
    l.map_values(|p: (String, bool)| (p.0@, p.1))
}

/// The mathematical content of an `info/` listing: each file name with the
/// text it holds.
pub open spec fn infos_model(l: Seq<(String, String)>) -> Seq<(Seq<char>, Seq<char>)> {
    l.map_values(|p: (String, String)| (p.0@, p.1@))
}

/// The directory flag of the first stored item named `id`, if any.
pub open spec fn file_lookup(mf: Seq<(Seq<char>, bool)>, id: Seq<char>) -> Option<bool>
    decreases mf.len(),
{
    if mf.len() == 0 {
        None
    } else if mf[0].0 == id {
        Some(mf[0].1)
    } else {
        file_lookup(mf.drop_first(), id)
    }
}

/// The text of the first metadata file standing for `id`, if any.
pub open spec fn info_lookup(mi: Seq<(Seq<char>, Seq<char>)>, id: Seq<char>) -> Option<Seq<char>>
    decreases mi.len(),
{
    if mi.len() == 0 {
        None
    } else if info_id_of(mi[0].0) == Some(id) {
        Some(mi[0].1)
    } else {
        info_lookup(mi.drop_first(), id)
    }
}

/// A healthy identifier: present in `files/`, present in `info/` under the
/// fixed suffix, and its record parses.
pub open spec fn is_healthy(
    mf: Seq<(Seq<char>, bool)>,
    mi: Seq<(Seq<char>, Seq<char>)>,
    id: Seq<char>,
) -> bool {
    &&& file_lookup(mf, id) is Some
    &&& info_lookup(mi, id) is Some
    &&& spec_parse_info(info_lookup(mi, id)->Some_0) is Ok
}

/// The parsed record of a healthy identifier.
pub open spec fn record_of(mi: Seq<(Seq<char>, Seq<char>)>, id: Seq<char>) -> InfoModel {
    spec_parse_info(info_lookup(mi, id)->Some_0)->Ok_0
}

/// Whether the `info/` side reports `id` at all.
pub open spec fn info_side_present(mi: Seq<(Seq<char>, Seq<char>)>, id: Seq<char>) -> bool {
    exists|j: int| 0 <= j < mi.len() && info_side_id(#[trigger] mi[j].0) == id
}

/// A degraded identifier: present on at least one side of the trash root but
/// not healthy — one half is missing, or the record is corrupt.
pub open spec fn is_degraded(
    mf: Seq<(Seq<char>, bool)>,
    mi: Seq<(Seq<char>, Seq<char>)>,
    id: Seq<char>,
) -> bool {
    &&& file_lookup(mf, id) is Some || info_side_present(mi, id)
    &&& !is_healthy(mf, mi, id)
}

/// Listing order on entries: deletion time ascending, ties broken by
/// identifier, lexicographically.
pub open spec fn entry_le(a: EntryModel, b: EntryModel) -> bool {
    if a.info.date != b.info.date {
        date_le(a.info.date, b.info.date)
    } else {
        lex_le(a.id, b.id)
    }
}

/// Whether a run of entries is in listing order.
pub open spec fn entries_sorted(s: Seq<EntryModel>) -> bool {
    forall|i: int, j: int| 0 <= i < j < s.len() ==> entry_le(s[i], s[j])
}

/// A stored-item name occurs in the listing exactly when looking it up finds
/// a directory flag.
pub proof fn lemma_file_lookup_present(mf: Seq<(Seq<char>, bool)>, id: Seq<char>)
    ensures
        (file_lookup(mf, id) is Some) == exists|j: int| 0 <= j < mf.len() && (#[trigger] mf[j]).0
            == id,
    decreases mf.len(),
{
    if mf.len() > 0 && mf[0].0 != id {
        lemma_file_lookup_present(mf.drop_first(), id);
        if file_lookup(mf.drop_first(), id) is Some {
            let j = choose|j: int| 0 <= j < mf.drop_first().len() && (#[trigger] mf.drop_first()[j]).0 == id;
            assert(mf[j + 1].0 == id);
        }
        if exists|j: int| 0 <= j < mf.len() && (#[trigger] mf[j]).0 == id {
            let j = choose|j: int| 0 <= j < mf.len() && (#[trigger] mf[j]).0 == id;
            assert(mf.drop_first()[j - 1].0 == id);
        }
    }
}

/// Compares two texts for equality.
pub fn str_eq(a: &str, b: &str) -> (r: bool)
    ensures
        r == (a@ == b@),
{
    let a_len = a.unicode_len();
    let b_len = b.unicode_len();
    if a_len != b_len {
        return false;
    }
    let r = match_at(a, 0, b);
    proof {
        assert(a@.subrange(0, a@.len() as int) =~= a@);
    }
    r
}

/// Strips the fixed metadata suffix off a file name, yielding the identifier
/// the name stands for, or nothing when the suffix is absent.
pub fn strip_info_suffix(name: &str) -> (r: Option<String>)
    ensures
        match r {
            Some(id) => info_id_of(name@) == Some(id@),
            None => info_id_of(name@) is None,
        },
{
    let len = name.unicode_len();
    proof {
        reveal_strlit(".trashinfo");
        assert(".trashinfo"@ =~= info_suffix());
    }
    if len > 10 && match_at(name, len - 10, ".trashinfo") {
        let id = name.substring_char(0, len - 10);
        proof {
            assert(name@.skip(len - 10) =~= name@.subrange(len - 10, len as int));
            assert(name@.take(len - 10) =~= id@);
        }
        Some(String::from_str(id))
    } else {
        proof {
            if len > 10 {
                assert(name@.skip(len - 10) =~= name@.subrange(len - 10, len as int));
            }
        }
        None
    }
}

/// Looks up the directory flag of the first stored item named `id`.
pub fn file_lookup_exec(files: &Vec<(String, bool)>, id: &str) -> (r: Option<bool>)
    ensures
        r == file_lookup(files_model(files@), id@),
{
    let ghost mf = files_model(files@);
    let n = files.len();
    let mut i: usize = 0;
    proof {
        assert(mf.skip(0) =~= mf);
    }
    while i < n
        invariant
            i <= n,
            n == files@.len(),
            mf == files_model(files@),
            file_lookup(mf, id@) == file_lookup(mf.skip(i as int), id@),
        decreases n - i,
    {
        if str_eq(files[i].0.as_str(), id) {
            proof {
                assert(mf.skip(i as int)[0] == mf[i as int]);
            }
            return Some(files[i].1);
        }
        proof {
            assert(mf.skip(i as int).drop_first() =~= mf.skip(i as int + 1));
        }
        i = i + 1;
    }
    proof {
        assert(mf.skip(n as int).len() == 0);
    }
    None
}

/// Looks up the text of the first metadata file standing for `id`.
pub fn find_info_content<'a>(infos: &'a Vec<(String, String)>, id: &str) -> (r: Option<&'a String>)
    ensures
        match r {
            Some(c) => info_lookup(infos_model(infos@), id@) == Some(c@),
            None => info_lookup(infos_model(infos@), id@) is None,
        },
{
    let ghost mi = infos_model(infos@);
    let n = infos.len();
    let mut i: usize = 0;
    proof {
        assert(mi.skip(0) =~= mi);
    }
    while i < n
        invariant
            i <= n,
            n == infos@.len(),
            mi == infos_model(infos@),
            info_lookup(mi, id@) == info_lookup(mi.skip(i as int), id@),
        decreases n - i,
    {
        proof {
            assert(mi.skip(i as int)[0] == mi[i as int]);
        }
        let matched = match strip_info_suffix(infos[i].0.as_str()) {
            Some(sid) => str_eq(sid.as_str(), id),
            None => false,
        };
        if matched {
            return Some(&infos[i].1);
        }
        proof {
            assert(mi.skip(i as int).drop_first() =~= mi.skip(i as int + 1));
        }
        i = i + 1;
    }
    proof {
        assert(mi.skip(n as int).len() == 0);
    }
    None
}

/// Listing order is total: two entries always relate one way or the other.
pub proof fn lemma_entry_le_total(a: EntryModel, b: EntryModel)
    ensures
        entry_le(a, b) || entry_le(b, a),
{
    if a.info.date == b.info.date {
        crate::strutil::lemma_lex_le_total(a.id, b.id);
    }
}

/// Listing order is transitive.
pub proof fn lemma_entry_le_trans(a: EntryModel, b: EntryModel, c: EntryModel)
    requires
        entry_le(a, b),
        entry_le(b, c),
    ensures
        entry_le(a, c),
{
    if a.info.date == b.info.date && b.info.date == c.info.date {
        crate::strutil::lemma_lex_le_trans(a.id, b.id, c.id);
    }
}

/// The mathematical content of a run of entries.
pub open spec fn entries_model(s: Seq<TrashEntry>) -> Seq<EntryModel> {
    s.map_values(|t: TrashEntry| t.model())
}

/// Compares two entries in listing order.
pub fn entry_le_exec(a: &TrashEntry, b: &TrashEntry) -> (r: bool)
    ensures
        r == entry_le(a.model(), b.model()),
{
    if !(a.info.deletion_date == b.info.deletion_date) {
        a.info.deletion_date.le(&b.info.deletion_date)
    } else {
        crate::strutil::str_lex_le(a.id.as_str(), b.id.as_str())
    }
}

/// Inserts an entry into a run kept in listing order, at its place.
pub fn insert_sorted(out: &mut Vec<TrashEntry>, e: TrashEntry)
    requires
        entries_sorted(entries_model(old(out)@)),
    ensures
        final(out)@.len() == old(out)@.len() + 1,
        entries_sorted(entries_model(final(out)@)),
        exists|p: int|
            0 <= p <= old(out)@.len() && final(out)@ == old(out)@.take(p).push(e) + old(
                out,
            )@.skip(p),
{
    let n = out.len();
    let mut p: usize = 0;
    while p < n && entry_le_exec(&out[p], &e)
        invariant
            p <= n,
            n == out@.len(),
            out@ == old(out)@,
            entries_sorted(entries_model(out@)),
            forall|i: int| 0 <= i < p ==> entry_le(entries_model(out@)[i], e.model()),
        decreases n - p,
    {
        p = p + 1;
    }
    proof {
        if p < n {
            lemma_entry_le_total(entries_model(out@)[p as int], e.model());
        }
    }
    out.insert(p, e);
    proof {
        let prev = old(out)@;
        let cur = out@;
        let pi = p as int;
        assert(cur =~= prev.take(pi).push(e) + prev.skip(pi));
        let em = entries_model(cur);
        let pm = entries_model(prev);
        assert(forall|k: int| 0 <= k < pi ==> em[k] == pm[k]);
        assert(em[pi] == e.model());
        assert(forall|k: int| pi < k < em.len() ==> em[k] == pm[k - 1]);
        assert forall|i: int, j: int| 0 <= i < j < em.len() implies entry_le(em[i], em[j]) by {
            if j < pi {
                assert(entry_le(pm[i], pm[j]));
            } else if i < pi && j == pi {
                assert(entry_le(pm[i], e.model()));
            } else if i < pi && j > pi {
                assert(entry_le(pm[i], pm[j - 1]));
            } else if i == pi {
                if j == pi + 1 {
                    assert(entry_le(e.model(), pm[pi]));
                } else {
                    lemma_entry_le_trans(e.model(), pm[pi], pm[j - 1]);
                }
            } else {
                assert(entry_le(pm[i - 1], pm[j - 1]));
            }
        }
    }
}

/// Whether some text in `v` equals `x`.
pub fn vec_contains_str(v: &Vec<String>, x: &str) -> (r: bool)
    ensures
        r == exists|j: int| 0 <= j < v@.len() && (#[trigger] v@[j])@ == x@,
{
    let n = v.len();
    let mut i: usize = 0;
    while i < n
        invariant
            i <= n,
            n == v@.len(),
            forall|j: int| 0 <= j < i ==> (#[trigger] v@[j])@ != x@,
        decreases n - i,
    {
        if str_eq(v[i].as_str(), x) {
            return true;
        }
        i = i + 1;
    }
    false
}

/// Whether some entry in `s` carries the identifier `id`.
pub open spec fn entries_contain_id(s: Seq<TrashEntry>, id: Seq<char>) -> bool {
    exists|k: int| 0 <= k < s.len() && (#[trigger] s[k]).id@ == id
}

/// Whether some text in `s` equals `id`.
pub open spec fn ids_contain(s: Seq<String>, id: Seq<char>) -> bool {
    exists|k: int| 0 <= k < s.len() && (#[trigger] s[k])@ == id
}

/// A lookup passes over a prefix in which no name matches.
proof fn lemma_file_lookup_skip(mf: Seq<(Seq<char>, bool)>, id: Seq<char>, i: int)
    requires
        0 <= i <= mf.len(),
        forall|k: int| 0 <= k < i ==> (#[trigger] mf[k]).0 != id,
    ensures
        file_lookup(mf, id) == file_lookup(mf.skip(i), id),
    decreases i,
{
    if i > 0 {
        assert(forall|k: int|
            0 <= k < i - 1 ==> (#[trigger] mf.drop_first()[k]).0 == mf[k + 1].0 && mf[k + 1].0
                != id);
        lemma_file_lookup_skip(mf.drop_first(), id, i - 1);
        assert(mf.drop_first().skip(i - 1) =~= mf.skip(i));
    } else {
        assert(mf.skip(0) =~= mf);
    }
}

/// Inserting an entry keeps every identifier already present, adds the new
/// one, and relates the positions of the result to those of the original.
proof fn lemma_insert_entry_ids(prev: Seq<TrashEntry>, cur: Seq<TrashEntry>, e: TrashEntry, p: int)
    requires
        0 <= p <= prev.len(),
        cur == prev.take(p).push(e) + prev.skip(p),
    ensures
        forall|id: Seq<char>| entries_contain_id(prev, id) ==> entries_contain_id(cur, id),
        entries_contain_id(cur, e.id@),
        forall|k: int|
            0 <= k < cur.len() ==> (#[trigger] cur[k]) == e || entries_contain_id(
                prev,
                cur[k].id@,
            ),
        forall|k: int| 0 <= k < cur.len() ==> cur[k] == e || prev.contains(#[trigger] cur[k]),
        cur.len() == prev.len() + 1,
{
    assert(forall|k: int| 0 <= k < p ==> (#[trigger] cur[k]) == prev[k]);
    assert(cur[p] == e);
    assert(forall|k: int| p < k < cur.len() ==> (#[trigger] cur[k]) == prev[k - 1]);
    assert forall|id: Seq<char>| entries_contain_id(prev, id) implies entries_contain_id(
        cur,
        id,
    ) by {
        let k = choose|k: int| 0 <= k < prev.len() && (#[trigger] prev[k]).id@ == id;
        if k < p {
            assert(cur[k].id@ == id);
        } else {
            assert(cur[k + 1].id@ == id);
        }
    }
    assert(cur[p].id@ == e.id@);
    assert forall|k: int| 0 <= k < cur.len() implies (#[trigger] cur[k]) == e || (
    entries_contain_id(prev, cur[k].id@) && prev.contains(cur[k])) by {
        if k < p {
            assert(prev[k].id@ == cur[k].id@);
        } else if k > p {
            assert(prev[k - 1].id@ == cur[k].id@);
        }
    }
}

/// Pushing a text keeps every text already present and adds the new one.
pub proof fn lemma_push_id(prev: Seq<String>, cur: Seq<String>, x: String)
    requires
        cur == prev.push(x),
    ensures
        forall|id: Seq<char>| ids_contain(prev, id) ==> ids_contain(cur, id),
        ids_contain(cur, x@),
        forall|k: int| 0 <= k < cur.len() ==> (#[trigger] cur[k])@ == x@ || ids_contain(prev, cur[k]@),
        cur.len() == prev.len() + 1,
{
    assert(forall|k: int| 0 <= k < prev.len() ==> (#[trigger] cur[k]) == prev[k]);
    assert(cur[prev.len() as int] == x);
    assert forall|id: Seq<char>| ids_contain(prev, id) implies ids_contain(cur, id) by {
        let k = choose|k: int| 0 <= k < prev.len() && (#[trigger] prev[k])@ == id;
        assert(cur[k]@ == id);
    }
}

/// What `reconcile` promises of its result: every entry is healthy and
/// carries the record and kind its identifier pairs to; every healthy
/// identifier appears exactly once; the entries stand in listing order; and
/// the degraded identifiers are exactly those present on one side only or
/// carrying a corrupt record, each reported once.
pub open spec fn reconcile_post(
    mf: Seq<(Seq<char>, bool)>,
    mi: Seq<(Seq<char>, Seq<char>)>,
    es: Seq<TrashEntry>,
    ds: Seq<String>,
) -> bool {
    &&& forall|k: int| 0 <= k < es.len() ==> is_healthy(mf, mi, (#[trigger] es[k]).id@)
    &&& forall|k: int|
        0 <= k < es.len() ==> (#[trigger] es[k]).info.model() == record_of(mi, es[k].id@)
    &&& forall|k: int|
        0 <= k < es.len() ==> (#[trigger] es[k]).kind == kind_of(file_lookup(mf, es[k].id@)->Some_0)
    &&& forall|k1: int, k2: int|
        0 <= k1 < k2 < es.len() ==> (#[trigger] es[k1]).id@ != (#[trigger] es[k2]).id@
    &&& entries_sorted(entries_model(es))
    &&& forall|j: int|
        0 <= j < mf.len() && is_healthy(mf, mi, (#[trigger] mf[j]).0) ==> entries_contain_id(
            es,
            mf[j].0,
        )
    &&& forall|k: int| 0 <= k < ds.len() ==> is_degraded(mf, mi, (#[trigger] ds[k])@)
    &&& forall|j: int|
        0 <= j < mf.len() && !is_healthy(mf, mi, (#[trigger] mf[j]).0) ==> ids_contain(ds, mf[j].0)
    &&& forall|j: int|
        0 <= j < mi.len() && !is_healthy(mf, mi, info_side_id((#[trigger] mi[j]).0)) ==> ids_contain(
            ds,
            info_side_id(mi[j].0),
        )
    &&& forall|k1: int, k2: int|
        0 <= k1 < k2 < ds.len() ==> (#[trigger] ds[k1])@ != (#[trigger] ds[k2])@
}

/// First reconciliation pass, over the `files/` listing: pairs each stored
/// item with its record, in listing order, and collects the stored items
/// whose metadata half is missing or corrupt.
#[verifier::rlimit(60)]
fn reconcile_files_pass(files: &Vec<(String, bool)>, infos: &Vec<(String, String)>) -> (r: (
    Vec<TrashEntry>,
    Vec<String>,
))
    ensures
        ({
            let mf = files_model(files@);
            let mi = infos_model(infos@);
            let es = r.0@;
            let ds = r.1@;
            &&& forall|k: int| 0 <= k < es.len() ==> is_healthy(mf, mi, (#[trigger] es[k]).id@)
            &&& forall|k: int|
                0 <= k < es.len() ==> (#[trigger] es[k]).info.model() == record_of(mi, es[k].id@)
            &&& forall|k: int|
                0 <= k < es.len() ==> (#[trigger] es[k]).kind == kind_of(
                    file_lookup(mf, es[k].id@)->Some_0,
                )
            &&& forall|k1: int, k2: int|
                0 <= k1 < k2 < es.len() ==> (#[trigger] es[k1]).id@ != (#[trigger] es[k2]).id@
            &&& entries_sorted(entries_model(es))
            &&& forall|j: int|
                0 <= j < mf.len() && is_healthy(mf, mi, (#[trigger] mf[j]).0)
                    ==> entries_contain_id(es, mf[j].0)
            &&& forall|k: int|
                0 <= k < ds.len() ==> file_lookup(mf, (#[trigger] ds[k])@) is Some && !is_healthy(
                    mf,
                    mi,
                    ds[k]@,
                )
            &&& forall|j: int|
                0 <= j < mf.len() && !is_healthy(mf, mi, (#[trigger] mf[j]).0) ==> ids_contain(
                    ds,
                    mf[j].0,
                )
            &&& forall|k1: int, k2: int|
                0 <= k1 < k2 < ds.len() ==> (#[trigger] ds[k1])@ != (#[trigger] ds[k2])@
        }),
{
    let ghost mf = files_model(files@);
    let ghost mi = infos_model(infos@);
    let mut entries: Vec<TrashEntry> = Vec::new();
    let mut degraded: Vec<String> = Vec::new();
    let mut seen: Vec<String> = Vec::new();
    let nf = files.len();
    let mut i: usize = 0;
    while i < nf
        invariant
            i <= nf,
            nf == files@.len(),
            mf == files_model(files@),
            mi == infos_model(infos@),
            seen@.len() == i,
            forall|k: int| 0 <= k < i ==> (#[trigger] seen@[k])@ == mf[k].0,
            forall|k: int|
                0 <= k < entries@.len() ==> is_healthy(mf, mi, (#[trigger] entries@[k]).id@),
            forall|k: int|
                0 <= k < entries@.len() ==> (#[trigger] entries@[k]).info.model() == record_of(
                    mi,
                    entries@[k].id@,
                ),
            forall|k: int|
                0 <= k < entries@.len() ==> (#[trigger] entries@[k]).kind == kind_of(
                    file_lookup(mf, entries@[k].id@)->Some_0,
                ),
            forall|k: int|
                0 <= k < entries@.len() ==> exists|jx: int|
                    0 <= jx < i && (#[trigger] entries@[k]).id@ == mf[jx].0,
            forall|k1: int, k2: int|
                0 <= k1 < k2 < entries@.len() ==> (#[trigger] entries@[k1]).id@ != (
                #[trigger] entries@[k2]).id@,
            entries_sorted(entries_model(entries@)),
            forall|jx: int|
                0 <= jx < i && is_healthy(mf, mi, (#[trigger] mf[jx]).0) ==> entries_contain_id(
                    entries@,
                    mf[jx].0,
                ),
            forall|k: int|
                0 <= k < degraded@.len() ==> file_lookup(mf, (#[trigger] degraded@[k])@) is Some
                    && !is_healthy(mf, mi, degraded@[k]@),
            forall|jx: int|
                0 <= jx < i && !is_healthy(mf, mi, (#[trigger] mf[jx]).0) ==> ids_contain(
                    degraded@,
                    mf[jx].0,
                ),
            forall|k: int|
                0 <= k < degraded@.len() ==> exists|jx: int|
                    0 <= jx < i && (#[trigger] degraded@[k])@ == mf[jx].0,
            forall|k1: int, k2: int|
                0 <= k1 < k2 < degraded@.len() ==> (#[trigger] degraded@[k1])@ != (
                #[trigger] degraded@[k2])@,
        decreases nf - i,
    {
        let name = &files[i].0;
        let is_dir = files[i].1;
        proof {
            assert(mf[i as int] == (files@[i as int].0@, files@[i as int].1));
        }
        if !vec_contains_str(&seen, name.as_str()) {
            proof {
                assert forall|k: int| 0 <= k < i implies (#[trigger] mf[k]).0 != name@ by {
                    assert(seen@[k]@ == mf[k].0);
                }
                lemma_file_lookup_skip(mf, name@, i as int);
                assert(mf.skip(i as int)[0] == mf[i as int]);
                assert(file_lookup(mf, name@) == Some(is_dir));
            }
            match find_info_content(infos, name.as_str()) {
                Some(content) => {
                    match TrashInfo::parse(content.as_str()) {
                        Ok(rec) => {
                            let entry = TrashEntry {
                                id: name.clone(),
                                kind: if is_dir {
                                    EntryKind::Directory
                                } else {
                                    EntryKind::File
                                },
                                info: rec,
                            };
                            proof {
                                assert(is_healthy(mf, mi, name@));
                                assert(entry.info.model() == record_of(mi, name@));
                                assert(entry.id@ == name@);
                                assert forall|k: int|
                                    0 <= k < entries@.len() implies (#[trigger] entries@[k]).id@
                                    != name@ by {
                                    let jx = choose|jx: int|
                                        0 <= jx < i && (#[trigger] entries@[k]).id@ == mf[jx].0;
                                    assert(mf[jx].0 != name@);
                                }
                            }
                            let ghost prev = entries@;
                            insert_sorted(&mut entries, entry);
                            proof {
                                let p = choose|p: int|
                                    0 <= p <= prev.len() && entries@ == prev.take(p).push(entry)
                                        + prev.skip(p);
                                lemma_insert_entry_ids(prev, entries@, entry, p);
                                assert forall|k: int|
                                    0 <= k < entries@.len() implies is_healthy(
                                    mf,
                                    mi,
                                    (#[trigger] entries@[k]).id@,
                                ) && entries@[k].info.model() == record_of(mi, entries@[k].id@)
                                    && entries@[k].kind == kind_of(
                                    file_lookup(mf, entries@[k].id@)->Some_0,
                                ) && (exists|jx: int|
                                    0 <= jx < i + 1 && (#[trigger] entries@[k]).id@
                                        == mf[jx].0) by {
                                    if entries@[k] == entry {
                                        assert(entries@[k].id@ == mf[i as int].0);
                                    } else {
                                        let k2 = choose|k2: int|
                                            0 <= k2 < prev.len() && (#[trigger] prev[k2])
                                                == entries@[k];
                                        let jx = choose|jx: int|
                                            0 <= jx < i && (#[trigger] prev[k2]).id@ == mf[jx].0;
                                        assert(0 <= jx < i + 1 && entries@[k].id@ == mf[jx].0);
                                    }
                                }
                                assert forall|k1: int, k2: int|
                                    0 <= k1 < k2 < entries@.len() implies (
                                #[trigger] entries@[k1]).id@ != (#[trigger] entries@[k2]).id@ by {
                                    if k1 < p && k2 < p {
                                        assert(prev[k1].id@ != prev[k2].id@);
                                    } else if k1 < p && k2 == p {
                                    } else if k1 < p && k2 > p {
                                        assert(prev[k1].id@ != prev[k2 - 1].id@);
                                    } else if k1 == p {
                                    } else {
                                        assert(prev[k1 - 1].id@ != prev[k2 - 1].id@);
                                    }
                                }
                            }
                        },
                        Err(_) => {
                            proof {
                                assert(!is_healthy(mf, mi, name@));
                                assert forall|k: int|
                                    0 <= k < degraded@.len() implies (#[trigger] degraded@[k])@
                                    != name@ by {
                                    let jx = choose|jx: int|
                                        0 <= jx < i && (#[trigger] degraded@[k])@ == mf[jx].0;
                                    assert(mf[jx].0 != name@);
                                }
                            }
                            let ghost prev = degraded@;
                            degraded.push(name.clone());
                            proof {
                                lemma_push_id(prev, degraded@, degraded@[prev.len() as int]);
                            }
                        },
                    }
                },
                None => {
                    proof {
                        assert(!is_healthy(mf, mi, name@));
                        assert forall|k: int|
                            0 <= k < degraded@.len() implies (#[trigger] degraded@[k])@
                            != name@ by {
                            let jx = choose|jx: int|
                                0 <= jx < i && (#[trigger] degraded@[k])@ == mf[jx].0;
                            assert(mf[jx].0 != name@);
                        }
                    }
                    let ghost prev = degraded@;
                    degraded.push(name.clone());
                    proof {
                        lemma_push_id(prev, degraded@, degraded@[prev.len() as int]);
                    }
                },
            }
        } else {
            proof {
                let k = choose|k: int| 0 <= k < seen@.len() && (#[trigger] seen@[k])@ == name@;
                assert(mf[k].0 == name@);
                assert(mf[i as int].0 == name@);
            }
        }
        seen.push(name.clone());
        i = i + 1;
    }
    (entries, degraded)
}

/// Second reconciliation pass, over the `info/` listing: reports every
/// identifier the metadata side carries without a stored item, including
/// names that do not carry the fixed suffix at all.
#[verifier::rlimit(60)]
fn reconcile_info_pass(
    files: &Vec<(String, bool)>,
    infos: &Vec<(String, String)>,
    degraded: &mut Vec<String>,
)
    requires
        forall|k: int|
            0 <= k < old(degraded)@.len() ==> file_lookup(
                files_model(files@),
                (#[trigger] old(degraded)@[k])@,
            ) is Some && !is_healthy(files_model(files@), infos_model(infos@), old(degraded)@[k]@),
        forall|k1: int, k2: int|
            0 <= k1 < k2 < old(degraded)@.len() ==> (#[trigger] old(degraded)@[k1])@ != (
            #[trigger] old(degraded)@[k2])@,
    ensures
        ({
            let mf = files_model(files@);
            let mi = infos_model(infos@);
            let ds = final(degraded)@;
            &&& forall|id: Seq<char>| ids_contain(old(degraded)@, id) ==> ids_contain(ds, id)
            &&& forall|k: int|
                0 <= k < ds.len() ==> is_degraded(mf, mi, (#[trigger] ds[k])@) || (file_lookup(
                    mf,
                    ds[k]@,
                ) is Some && !is_healthy(mf, mi, ds[k]@))
            &&& forall|j: int|
                0 <= j < mi.len() && !is_healthy(mf, mi, info_side_id((#[trigger] mi[j]).0))
                    && file_lookup(mf, info_side_id(mi[j].0)) is None ==> ids_contain(
                    ds,
                    info_side_id(mi[j].0),
                )
            &&& forall|k1: int, k2: int|
                0 <= k1 < k2 < ds.len() ==> (#[trigger] ds[k1])@ != (#[trigger] ds[k2])@
        }),
{
    let ghost mf = files_model(files@);
    let ghost mi = infos_model(infos@);
    let ni = infos.len();
    let mut j: usize = 0;
    while j < ni
        invariant
            j <= ni,
            ni == infos@.len(),
            mf == files_model(files@),
            mi == infos_model(infos@),
            forall|id: Seq<char>| ids_contain(old(degraded)@, id) ==> ids_contain(degraded@, id),
            forall|k: int|
                0 <= k < degraded@.len() ==> is_degraded(mf, mi, (#[trigger] degraded@[k])@) || (
                file_lookup(mf, degraded@[k]@) is Some && !is_healthy(mf, mi, degraded@[k]@)),
            forall|jj: int|
                0 <= jj < j && !is_healthy(mf, mi, info_side_id((#[trigger] mi[jj]).0))
                    && file_lookup(mf, info_side_id(mi[jj].0)) is None ==> ids_contain(
                    degraded@,
                    info_side_id(mi[jj].0),
                ),
            forall|k1: int, k2: int|
                0 <= k1 < k2 < degraded@.len() ==> (#[trigger] degraded@[k1])@ != (
                #[trigger] degraded@[k2])@,
        decreases ni - j,
    {
        proof {
            assert(mi[j as int] == (infos@[j as int].0@, infos@[j as int].1@));
        }
        let side_id: String = match strip_info_suffix(infos[j].0.as_str()) {
            Some(id) => id,
            None => infos[j].0.clone(),
        };
        proof {
            assert(side_id@ == info_side_id(mi[j as int].0));
        }
        match file_lookup_exec(files, side_id.as_str()) {
            Some(_) => {},
            None => {
                if !vec_contains_str(degraded, side_id.as_str()) {
                    proof {
                        assert(info_side_present(mi, side_id@));
                        assert(!is_healthy(mf, mi, side_id@));
                        assert(is_degraded(mf, mi, side_id@));
                    }
                    let ghost prev = degraded@;
                    degraded.push(side_id);
                    proof {
                        lemma_push_id(prev, degraded@, degraded@[prev.len() as int]);
                    }
                }
            },
        }
        j = j + 1;
    }
}

/// Reconciles the two halves of a trash root. `files` lists the stored items
/// with their directory flags; `infos` lists the metadata files with the text
/// each holds. Yields the healthy entries in listing order and the degraded
/// identifiers; one corrupt record never blocks visibility of the rest.
pub fn reconcile(files: &Vec<(String, bool)>, infos: &Vec<(String, String)>) -> (r: (
    Vec<TrashEntry>,
    Vec<String>,
))
    ensures
        reconcile_post(files_model(files@), infos_model(infos@), r.0@, r.1@),
{
    let ghost mf = files_model(files@);
    let ghost mi = infos_model(infos@);
    let (entries, mut degraded) = reconcile_files_pass(files, infos);
    let ghost pass1 = degraded@;
    reconcile_info_pass(files, infos, &mut degraded);
    proof {
        assert forall|j: int|
            0 <= j < mf.len() && !is_healthy(mf, mi, (#[trigger] mf[j]).0) implies ids_contain(
            degraded@,
            mf[j].0,
        ) by {
            assert(ids_contain(pass1, mf[j].0));
        }
        assert forall|j: int|
            0 <= j < mi.len() && !is_healthy(mf, mi, info_side_id((#[trigger] mi[j]).0)) implies ids_contain(
            degraded@,
            info_side_id(mi[j].0),
        ) by {
            let sid = info_side_id(mi[j].0);
            if file_lookup(mf, sid) is Some {
                lemma_file_lookup_present(mf, sid);
                let jj = choose|jj: int| 0 <= jj < mf.len() && (#[trigger] mf[jj]).0 == sid;
                assert(!is_healthy(mf, mi, mf[jj].0));
                assert(ids_contain(pass1, mf[jj].0));
            }
        }
        assert forall|k: int| 0 <= k < degraded@.len() implies is_degraded(
            mf,
            mi,
            (#[trigger] degraded@[k])@,
        ) by {
            if file_lookup(mf, degraded@[k]@) is Some {
                assert(is_degraded(mf, mi, degraded@[k]@));
            }
        }
    }
    (entries, degraded)
}

} // verus!
