//! The state-changing trash operations, as verified decisions: collision-free
//! identifier choice for put, restore planning, per-item purge planning with
//! failure isolation, and the purge-everything target set. The surrounding
//! filesystem moves are carried out by the caller; every decision about what
//! to touch and what to report is made — and proved — here.

use vstd::prelude::*;
use crate::datetime::DateTime;
use crate::index::TrashEntry;
use crate::index::file_lookup;
use crate::index::info_lookup;
use crate::index::info_id_of;
use crate::index::info_side_id;
use crate::index::info_side_present;
use crate::index::is_healthy;
use crate::index::is_degraded;
use crate::index::ids_contain;
use crate::index::files_model;
use crate::index::infos_model;
use crate::index::info_suffix;
use crate::index::str_eq;
use crate::index::strip_info_suffix;
use crate::index::vec_contains_str;
use crate::index::find_info_content;
use crate::index::file_lookup_exec;
use crate::info::spec_serialize_info;
use crate::info::TrashInfo;
use crate::strutil::basename_of;
use crate::strutil::base_name;
use crate::strutil::contains_char;
use crate::strutil::dec_digits;
use crate::strutil::is_absolute;
use crate::strutil::is_absolute_path;
use crate::strutil::lemma_dec_digits_injective;
use crate::strutil::u64_to_dec;
use vstd::set_lib::lemma_len_subset;
use vstd::seq_lib::seq_to_set_is_finite;

verus! {

/// Why a put failed.
#[derive(Clone, Debug, PartialEq, Eq)]
pub enum PutError {
    /// The source path does not exist.
    SourceMissing { path: String },
    /// Moving the source into the trash failed; nothing was changed.
    MoveFailed { path: String },
    /// The content was moved but its record could not be written; the move
    /// was rolled back and the source is where it was.
    MetadataWriteFailed { path: String },
    /// The record could not be written and rolling the move back failed too:
    /// the item is now trashed but unrecorded — a degraded entry, reported,
    /// never silently lost.
    RollbackFailed { path: String },
}

/// Why a restore failed.
#[derive(Clone, Copy, Debug, PartialEq, Eq, Structural)]
pub enum RestoreError {
    /// No healthy entry carries the requested identifier.
    NotFound,
    /// The destination already exists and overwriting was not allowed;
    /// nothing was changed.
    DestinationExists,
    /// Moving the stored content back failed.
    MoveFailed,
}

/// Why a purge of one identifier failed.
#[derive(Clone, Copy, Debug, PartialEq, Eq, Structural)]
pub enum PurgeError {
    /// Neither half of the trash root carries the identifier.
    NotFound,
    /// Deleting one of the halves failed; the purge of this identifier must
    /// be reported failed so the caller can retry.
    IoFailure,
}

/// The candidate identifier with numeric suffix `n`.
pub open spec fn spec_candidate(base: Seq<char>, n: nat) -> Seq<char> {
    base + seq!['.'] + dec_digits(n)
}

/// Distinct suffix numbers give distinct candidates over one base.
proof fn lemma_candidate_injective(base: Seq<char>, a: nat, b: nat)
    requires
        spec_candidate(base, a) == spec_candidate(base, b),
    ensures
        a == b,
{
    let ca = spec_candidate(base, a);
    let cb = spec_candidate(base, b);
    assert(ca.skip(base.len() as int + 1) =~= dec_digits(a));
    assert(cb.skip(base.len() as int + 1) =~= dec_digits(b));
    lemma_dec_digits_injective(a, b);
}

/// The set of candidates with suffix numbers below `n`.
spec fn candidate_set(base: Seq<char>, n: nat) -> Set<Seq<char>>
    decreases n,
{
    if n <= 2 {
        Set::empty()
    } else {
        candidate_set(base, (n - 1) as nat).insert(spec_candidate(base, (n - 1) as nat))
    }
}

/// The candidate set below `n` holds exactly the candidates with suffix in
/// `[2, n)`, and as many of them as there are numbers.
proof fn lemma_candidate_set(base: Seq<char>, n: nat)
    requires
        n >= 2,
    ensures
        candidate_set(base, n).finite(),
        candidate_set(base, n).len() == n - 2,
        forall|s: Seq<char>|
            candidate_set(base, n).contains(s) <==> exists|m: nat|
                2 <= m < n && s == spec_candidate(base, m),
    decreases n,
{
    if n == 2 {
        assert(forall|s: Seq<char>| !candidate_set(base, n).contains(s));
    } else {
        lemma_candidate_set(base, (n - 1) as nat);
        let prev = candidate_set(base, (n - 1) as nat);
        let c = spec_candidate(base, (n - 1) as nat);
        if prev.contains(c) {
            let m = choose|m: nat| 2 <= m < n - 1 && c == spec_candidate(base, m);
            lemma_candidate_injective(base, m, (n - 1) as nat);
            assert(false);
        }
        assert(candidate_set(base, n).len() == prev.len() + 1);
        assert forall|s: Seq<char>|
            candidate_set(base, n).contains(s) <==> exists|m: nat|
                2 <= m < n && s == spec_candidate(base, m) by {
            if candidate_set(base, n).contains(s) {
                if s == c {
                    assert(2 <= n - 1 < n && s == spec_candidate(base, (n - 1) as nat));
                }
            }
            if exists|m: nat| 2 <= m < n && s == spec_candidate(base, m) {
                let m = choose|m: nat| 2 <= m < n && s == spec_candidate(base, m);
                if m < n - 1 {
                    assert(prev.contains(s));
                }
            }
        }
    }
}

/// If every candidate with suffix below `n` is among the existing names,
/// there are at least `n - 2` existing names: the probe cannot run past the
/// listing's length plus two.
proof fn lemma_candidates_exhaust(base: Seq<char>, existing: Seq<String>, n: nat)
    requires
        n >= 2,
        forall|m: nat| 2 <= m < n ==> ids_contain(existing, spec_candidate(base, m)),
    ensures
        n - 2 <= existing.len(),
{
    broadcast use seq_to_set_is_finite;

    let views = existing.map_values(|s: String| s@);
    lemma_candidate_set(base, n);
    assert forall|s: Seq<char>| candidate_set(base, n).contains(s) implies views.to_set().contains(
        s,
    ) by {
        let m = choose|m: nat| 2 <= m < n && s == spec_candidate(base, m);
        let k = choose|k: int| 0 <= k < existing.len() && (#[trigger] existing[k])@ == s;
        assert(views[k] == s);
    }
    lemma_len_subset(candidate_set(base, n), views.to_set());
    views.lemma_cardinality_of_set();
}

/// Renders the candidate identifier with numeric suffix `n`.
fn make_candidate(base: &str, n: u64) -> (r: String)
    ensures
        r@ == spec_candidate(base@, n as nat),
{
    let mut r = String::from_str(base);
    r.append(".");
    r.append(u64_to_dec(n).as_str());
    proof {
        reveal_strlit(".");
        assert(r@ =~= spec_candidate(base@, n as nat));
    }
    r
}

/// Chooses the identifier under which to store a new item: the base name
/// itself when unused, else `<base>.2`, `<base>.3`, … probed in increasing
/// numeric order until the first unused candidate — deterministic, and free
/// of every name in `existing`.
pub fn next_free_id(base: &str, existing: &Vec<String>) -> (r: String)
    requires
        existing@.len() + 2 <= u64::MAX,
    ensures
        !ids_contain(existing@, r@),
        !ids_contain(existing@, base@) ==> r@ == base@,
        ids_contain(existing@, base@) ==> exists|n: nat|
            2 <= n && r@ == spec_candidate(base@, n) && (forall|m: nat|
                2 <= m < n ==> ids_contain(existing@, spec_candidate(base@, m))),
{
    if !vec_contains_str(existing, base) {
        return String::from_str(base);
    }
    let mut n: u64 = 2;
    loop
        invariant
            2 <= n,
            n - 2 <= existing@.len(),
            existing@.len() + 2 <= u64::MAX,
            forall|m: nat| 2 <= m < n ==> ids_contain(existing@, spec_candidate(base@, m)),
            ids_contain(existing@, base@),
        decreases existing@.len() + 2 - n,
    {
        let cand = make_candidate(base, n);
        if !vec_contains_str(existing, cand.as_str()) {
            return cand;
        }
        proof {
            assert(ids_contain(existing@, spec_candidate(base@, n as nat)));
            lemma_candidates_exhaust(base@, existing@, (n + 1) as nat);
        }
        n = n + 1;
    }
}

/// Choosing an identifier for a second item after the first took its own
/// never reuses the first one: two puts sharing a base name get two distinct
/// identifiers.
pub proof fn lemma_put_ids_distinct(existing: Seq<String>, first: String, later: Seq<char>)
    requires
        !ids_contain(existing, first@),
        !ids_contain(existing.push(first), later),
    ensures
        later != first@,
{
    assert(existing.push(first)[existing.len() as int] == first);
}

/// Whether `p` may be handed to `plan_put` as a source path: absolute, a
/// single line, and with a nonempty base name.
pub fn is_valid_source_path(p: &str) -> (r: bool)
    ensures
        r == (is_absolute_path(p@) && !p@.contains('\n') && basename_of(p@).len() > 0),
{
    if !is_absolute(p) {
        return false;
    }
    if contains_char(p, '\n') {
        return false;
    }
    let base = base_name(p);
    base.as_str().unicode_len() > 0
}

/// Everything the caller must do to trash one item: store the content under
/// `stored_rel`, then write `info_text` to `info_rel` — in that order.
#[derive(Clone, Debug, PartialEq, Eq)]
pub struct PutPlan {
    pub id: String,
    pub stored_rel: String,
    pub info_rel: String,
    pub info_text: String,
}

/// Plans trashing `source_path`: reports a missing source, chooses the first
/// free identifier for the item's base name among `existing`, and renders
/// the metadata record with `now` as the deletion time.
pub fn plan_put(source_path: &str, source_exists: bool, existing: &Vec<String>, now: DateTime) -> (r:
    Result<PutPlan, PutError>)
    requires
        is_absolute_path(source_path@),
        !source_path@.contains('\n'),
        basename_of(source_path@).len() > 0,
        now.wf(),
        existing@.len() + 2 <= u64::MAX,
    ensures
        !source_exists ==> (r matches Err(PutError::SourceMissing { path }) && path@
            == source_path@),
        source_exists ==> (r matches Ok(p) && {
            &&& !ids_contain(existing@, p.id@)
            &&& !ids_contain(existing@, basename_of(source_path@)) ==> p.id@ == basename_of(
                source_path@,
            )
            &&& ids_contain(existing@, basename_of(source_path@)) ==> exists|n: nat|
                2 <= n && p.id@ == spec_candidate(basename_of(source_path@), n) && (forall|m: nat|
                    2 <= m < n ==> ids_contain(
                        existing@,
                        spec_candidate(basename_of(source_path@), m),
                    ))
            &&& p.stored_rel@ == "files/"@ + p.id@
            &&& p.info_rel@ == "info/"@ + p.id@ + ".trashinfo"@
            &&& p.info_text@ == spec_serialize_info(source_path@, now)
        }),
{
    if !source_exists {
        return Err(PutError::SourceMissing { path: String::from_str(source_path) });
    }
    let base = base_name(source_path);
    let id = next_free_id(base.as_str(), existing);
    let mut stored_rel = String::from_str("files/");
    stored_rel.append(id.as_str());
    let mut info_rel = String::from_str("info/");
    info_rel.append(id.as_str());
    info_rel.append(".trashinfo");
    let record = TrashInfo { path: String::from_str(source_path), deletion_date: now };
    let info_text = record.serialize();
    proof {
        assert(info_rel@ =~= "info/"@ + id@ + ".trashinfo"@);
    }
    Ok(PutPlan { id, stored_rel, info_rel, info_text })
}

/// The typed result of a put, from what happened at each step: a missing
/// source fails up front; a failed move leaves everything unchanged; a
/// failed record write is rolled back when possible, and reported as a
/// rollback failure — the item then sits trashed but unrecorded — when not.
pub fn put_outcome(
    source_path: &str,
    source_exists: bool,
    move_ok: bool,
    info_ok: bool,
    rollback_ok: bool,
) -> (r: Result<(), PutError>)
    ensures
        !source_exists ==> (r matches Err(PutError::SourceMissing { path }) && path@
            == source_path@),
        source_exists && !move_ok ==> (r matches Err(PutError::MoveFailed { path }) && path@
            == source_path@),
        source_exists && move_ok && !info_ok && rollback_ok ==> (r matches Err(
            PutError::MetadataWriteFailed { path },
        ) && path@ == source_path@),
        source_exists && move_ok && !info_ok && !rollback_ok ==> (r matches Err(
            PutError::RollbackFailed { path },
        ) && path@ == source_path@),
        source_exists && move_ok && info_ok ==> r == Ok::<(), PutError>(()),
{
    if !source_exists {
        Err(PutError::SourceMissing { path: String::from_str(source_path) })
    } else if !move_ok {
        Err(PutError::MoveFailed { path: String::from_str(source_path) })
    } else if !info_ok {
        if rollback_ok {
            Err(PutError::MetadataWriteFailed { path: String::from_str(source_path) })
        } else {
            Err(PutError::RollbackFailed { path: String::from_str(source_path) })
        }
    } else {
        Ok(())
    }
}

/// The first healthy entry carrying `id`, if any.
pub open spec fn entry_lookup(es: Seq<TrashEntry>, id: Seq<char>) -> Option<TrashEntry>
    decreases es.len(),
{
    if es.len() == 0 {
        None
    } else if es[0].id@ == id {
        Some(es[0])
    } else {
        entry_lookup(es.drop_first(), id)
    }
}

/// Everything the caller must do to restore one entry: move `stored_rel`
/// to `dest`, and only after that move succeeds delete `info_rel` — so a
/// crash in between leaves the item still fully trashed and recoverable.
#[derive(Clone, Debug, PartialEq, Eq)]
pub struct RestorePlan {
    pub id: String,
    pub stored_rel: String,
    pub info_rel: String,
    pub dest: String,
}

/// Plans restoring the entry `id` to its recorded original path. An
/// identifier without a healthy entry — degraded ones included — is not
/// found; an existing destination without leave to overwrite fails without
/// touching trash state.
pub fn plan_restore(entries: &Vec<TrashEntry>, id: &str, overwrite: bool, dest_exists: bool) -> (r:
    Result<RestorePlan, RestoreError>)
    ensures
        match entry_lookup(entries@, id@) {
            None => r == Err::<RestorePlan, RestoreError>(RestoreError::NotFound),
            Some(e) => if dest_exists && !overwrite {
                r == Err::<RestorePlan, RestoreError>(RestoreError::DestinationExists)
            } else {
                r matches Ok(p) && p.id@ == id@ && p.stored_rel@ == "files/"@ + id@ && p.info_rel@
                    == "info/"@ + id@ + ".trashinfo"@ && p.dest@ == e.info.path@
            },
        },
{
    let n = entries.len();
    let mut i: usize = 0;
    proof {
        assert(entries@.skip(0) =~= entries@);
    }
    while i < n
        invariant
            i <= n,
            n == entries@.len(),
            entry_lookup(entries@, id@) == entry_lookup(entries@.skip(i as int), id@),
        decreases n - i,
    {
        proof {
            assert(entries@.skip(i as int)[0] == entries@[i as int]);
        }
        if str_eq(entries[i].id.as_str(), id) {
            if dest_exists && !overwrite {
                return Err(RestoreError::DestinationExists);
            }
            let mut stored_rel = String::from_str("files/");
            stored_rel.append(id);
            let mut info_rel = String::from_str("info/");
            info_rel.append(id);
            info_rel.append(".trashinfo");
            proof {
                assert(info_rel@ =~= "info/"@ + id@ + ".trashinfo"@);
            }
            return Ok(
                RestorePlan {
                    id: String::from_str(id),
                    stored_rel,
                    info_rel,
                    dest: entries[i].info.path.clone(),
                },
            );
        }
        proof {
            assert(entries@.skip(i as int).drop_first() =~= entries@.skip(i as int + 1));
        }
        i = i + 1;
    }
    proof {
        assert(entries@.skip(n as int).len() == 0);
    }
    Err(RestoreError::NotFound)
}

/// The typed result of carrying a restore plan out, from what happened at
/// each step: a failed content move is the restore's failure, and leaves
/// the item fully trashed and recoverable. Only after the move succeeds is
/// the record deleted; `Ok` then reports whether it was — a record that
/// could not be deleted lingers as a degraded entry, reported, never
/// silently forgotten.
pub fn restore_outcome(move_ok: bool, record_removed: bool) -> (r: Result<bool, RestoreError>)
    ensures
        !move_ok ==> r == Err::<bool, RestoreError>(RestoreError::MoveFailed),
        move_ok ==> r == Ok::<bool, RestoreError>(record_removed),
{
    if !move_ok {
        Err(RestoreError::MoveFailed)
    } else {
        Ok(record_removed)
    }
}

/// Whether `info/` holds a file literally named `id` that carries no
/// metadata suffix.
pub open spec fn raw_info_present(mi: Seq<(Seq<char>, Seq<char>)>, id: Seq<char>) -> bool {
    exists|j: int| 0 <= j < mi.len() && (#[trigger] mi[j]).0 == id && info_id_of(mi[j].0) is None
}

/// A metadata file standing for `id` exists exactly when looking `id` up
/// finds a text.
pub proof fn lemma_info_lookup_present(mi: Seq<(Seq<char>, Seq<char>)>, id: Seq<char>)
    ensures
        (info_lookup(mi, id) is Some) == exists|j: int|
            0 <= j < mi.len() && info_id_of((#[trigger] mi[j]).0) == Some(id),
    decreases mi.len(),
{
    if mi.len() > 0 && info_id_of(mi[0].0) != Some(id) {
        lemma_info_lookup_present(mi.drop_first(), id);
        if info_lookup(mi.drop_first(), id) is Some {
            let j = choose|j: int|
                0 <= j < mi.drop_first().len() && info_id_of(
                    (#[trigger] mi.drop_first()[j]).0,
                ) == Some(id);
            assert(info_id_of(mi[j + 1].0) == Some(id));
        }
        if exists|j: int| 0 <= j < mi.len() && info_id_of((#[trigger] mi[j]).0) == Some(id) {
            let j = choose|j: int|
                0 <= j < mi.len() && info_id_of((#[trigger] mi[j]).0) == Some(id);
            assert(info_id_of(mi.drop_first()[j - 1].0) == Some(id));
        }
    }
}

/// An identifier has a half in the trash root — stored item, metadata file,
/// or a suffixless metadata name — exactly when it is healthy or degraded.
pub proof fn lemma_present_parts(
    mf: Seq<(Seq<char>, bool)>,
    mi: Seq<(Seq<char>, Seq<char>)>,
    id: Seq<char>,
)
    ensures
        (file_lookup(mf, id) is Some || info_lookup(mi, id) is Some || raw_info_present(mi, id))
            == (is_healthy(mf, mi, id) || is_degraded(mf, mi, id)),
{
    lemma_info_lookup_present(mi, id);
    if info_lookup(mi, id) is Some {
        let j = choose|j: int| 0 <= j < mi.len() && info_id_of((#[trigger] mi[j]).0) == Some(id);
        assert(info_side_id(mi[j].0) == id);
        assert(info_side_present(mi, id));
    }
    if raw_info_present(mi, id) {
        let j = choose|j: int|
            0 <= j < mi.len() && (#[trigger] mi[j]).0 == id && info_id_of(mi[j].0) is None;
        assert(info_side_id(mi[j].0) == id);
        assert(info_side_present(mi, id));
    }
    if info_side_present(mi, id) {
        let j = choose|j: int| 0 <= j < mi.len() && info_side_id(#[trigger] mi[j].0) == id;
        if info_id_of(mi[j].0) is Some {
            assert(info_id_of(mi[j].0) == Some(id));
        }
    }
}

/// Whether `info/` holds a file literally named `id` without the suffix.
fn raw_info_name_exec(infos: &Vec<(String, String)>, id: &str) -> (r: bool)
    ensures
        r == raw_info_present(infos_model(infos@), id@),
{
    let ghost mi = infos_model(infos@);
    let n = infos.len();
    let mut j: usize = 0;
    while j < n
        invariant
            j <= n,
            n == infos@.len(),
            mi == infos_model(infos@),
            forall|jj: int|
                0 <= jj < j ==> !((#[trigger] mi[jj]).0 == id@ && info_id_of(mi[jj].0) is None),
        decreases n - j,
    {
        proof {
            assert(mi[j as int] == (infos@[j as int].0@, infos@[j as int].1@));
        }
        if str_eq(infos[j].0.as_str(), id) {
            match strip_info_suffix(infos[j].0.as_str()) {
                None => {
                    return true;
                },
                Some(_) => {},
            }
        }
        j = j + 1;
    }
    false
}

/// Everything the caller must do to purge one identifier: delete whichever
/// halves the listings showed — the stored item, the metadata file, and a
/// suffixless metadata name — re-checking existence at the moment of acting.
#[derive(Clone, Debug, PartialEq, Eq)]
pub struct PurgePlan {
    pub id: String,
    pub remove_stored: bool,
    pub remove_info: bool,
    pub remove_raw_info: bool,
}

/// What `plan_purge` decides for a single requested identifier.
pub open spec fn purge_decision(
    mf: Seq<(Seq<char>, bool)>,
    mi: Seq<(Seq<char>, Seq<char>)>,
    id: Seq<char>,
    r: Result<PurgePlan, PurgeError>,
) -> bool {
    if is_healthy(mf, mi, id) || is_degraded(mf, mi, id) {
        r matches Ok(p) && p.id@ == id && p.remove_stored == (file_lookup(mf, id) is Some)
            && p.remove_info == (info_lookup(mi, id) is Some) && p.remove_raw_info
            == raw_info_present(mi, id)
    } else {
        r == Err::<PurgePlan, PurgeError>(PurgeError::NotFound)
    }
}

/// Plans purging each requested identifier, each decided independently of
/// the others: a missing identifier is not found, and reported for that
/// identifier only — one failing item never masks the outcome of the rest.
pub fn plan_purge(
    files: &Vec<(String, bool)>,
    infos: &Vec<(String, String)>,
    ids: &Vec<String>,
) -> (r: Vec<(String, Result<PurgePlan, PurgeError>)>)
    ensures
        r@.len() == ids@.len(),
        forall|k: int| 0 <= k < ids@.len() ==> (#[trigger] r@[k]).0@ == ids@[k]@,
        forall|k: int|
            0 <= k < ids@.len() ==> purge_decision(
                files_model(files@),
                infos_model(infos@),
                ids@[k]@,
                (#[trigger] r@[k]).1,
            ),
{
    let ghost mf = files_model(files@);
    let ghost mi = infos_model(infos@);
    let n = ids.len();
    let mut r: Vec<(String, Result<PurgePlan, PurgeError>)> = Vec::new();
    let mut k: usize = 0;
    while k < n
        invariant
            k <= n,
            n == ids@.len(),
            mf == files_model(files@),
            mi == infos_model(infos@),
            r@.len() == k,
            forall|kk: int| 0 <= kk < k ==> (#[trigger] r@[kk]).0@ == ids@[kk]@,
            forall|kk: int| 0 <= kk < k ==> purge_decision(mf, mi, ids@[kk]@, (#[trigger] r@[kk]).1),
        decreases n - k,
    {
        let id = &ids[k];
        let stored = file_lookup_exec(files, id.as_str());
        let info_found = match find_info_content(infos, id.as_str()) {
            Some(_) => true,
            None => false,
        };
        let raw = raw_info_name_exec(infos, id.as_str());
        proof {
            lemma_present_parts(mf, mi, id@);
        }
        let decision: Result<PurgePlan, PurgeError> = match stored {
            Some(_) => Ok(
                PurgePlan {
                    id: id.clone(),
                    remove_stored: true,
                    remove_info: info_found,
                    remove_raw_info: raw,
                },
            ),
            None => {
                if info_found || raw {
                    Ok(
                        PurgePlan {
                            id: id.clone(),
                            remove_stored: false,
                            remove_info: info_found,
                            remove_raw_info: raw,
                        },
                    )
                } else {
                    Err(PurgeError::NotFound)
                }
            },
        };
        r.push((id.clone(), decision));
        k = k + 1;
    }
    r
}

/// Every identifier either half of the trash root carries, each once: the
/// target set of `empty`, degraded entries included — abandoning
/// unrecoverable half-records would defeat the purpose of emptying.
pub fn empty_targets(files: &Vec<(String, bool)>, infos: &Vec<(String, String)>) -> (r: Vec<String>)
    ensures
        forall|k: int|
            0 <= k < r@.len() ==> is_healthy(files_model(files@), infos_model(infos@), (
            #[trigger] r@[k])@) || is_degraded(
                files_model(files@),
                infos_model(infos@),
                r@[k]@,
            ),
        forall|j: int|
            0 <= j < files_model(files@).len() ==> ids_contain(r@, (#[trigger] files_model(
                files@,
            )[j]).0),
        forall|j: int|
            0 <= j < infos_model(infos@).len() ==> ids_contain(
                r@,
                info_side_id((#[trigger] infos_model(infos@)[j]).0),
            ),
        forall|k1: int, k2: int| 0 <= k1 < k2 < r@.len() ==> (#[trigger] r@[k1])@ != (#[trigger] r@[k2])@,
{
    let ghost mf = files_model(files@);
    let ghost mi = infos_model(infos@);
    let mut out: Vec<String> = Vec::new();
    let nf = files.len();
    let mut i: usize = 0;
    while i < nf
        invariant
            i <= nf,
            nf == files@.len(),
            mf == files_model(files@),
            mi == infos_model(infos@),
            forall|k: int|
                0 <= k < out@.len() ==> is_healthy(mf, mi, (#[trigger] out@[k])@) || is_degraded(
                    mf,
                    mi,
                    out@[k]@,
                ),
            forall|j: int| 0 <= j < i ==> ids_contain(out@, (#[trigger] mf[j]).0),
            forall|k1: int, k2: int|
                0 <= k1 < k2 < out@.len() ==> (#[trigger] out@[k1])@ != (#[trigger] out@[k2])@,
        decreases nf - i,
    {
        let name = &files[i].0;
        proof {
            assert(mf[i as int] == (files@[i as int].0@, files@[i as int].1));
        }
        if !vec_contains_str(&out, name.as_str()) {
            proof {
                crate::index::lemma_file_lookup_present(mf, name@);
                assert(mf[i as int].0 == name@);
                if !is_healthy(mf, mi, name@) {
                    assert(is_degraded(mf, mi, name@));
                }
            }
            let ghost prev = out@;
            out.push(name.clone());
            proof {
                crate::index::lemma_push_id(prev, out@, out@[prev.len() as int]);
            }
        }
        i = i + 1;
    }
    let ni = infos.len();
    let mut j: usize = 0;
    while j < ni
        invariant
            j <= ni,
            ni == infos@.len(),
            nf == files@.len(),
            mf == files_model(files@),
            mi == infos_model(infos@),
            forall|k: int|
                0 <= k < out@.len() ==> is_healthy(mf, mi, (#[trigger] out@[k])@) || is_degraded(
                    mf,
                    mi,
                    out@[k]@,
                ),
            forall|jj: int| 0 <= jj < nf ==> ids_contain(out@, (#[trigger] mf[jj]).0),
            forall|jj: int| 0 <= jj < j ==> ids_contain(out@, info_side_id((#[trigger] mi[jj]).0)),
            forall|k1: int, k2: int|
                0 <= k1 < k2 < out@.len() ==> (#[trigger] out@[k1])@ != (#[trigger] out@[k2])@,
        decreases ni - j,
    {
        proof {
            assert(mi[j as int] == (infos@[j as int].0@, infos@[j as int].1@));
        }
        let side_id: String = match strip_info_suffix(infos[j].0.as_str()) {
            Some(id) => id,
            None => infos[j].0.clone(),
        };
        proof {
            assert(side_id@ == info_side_id(mi[j as int].0));
        }
        if !vec_contains_str(&out, side_id.as_str()) {
            proof {
                assert(info_side_present(mi, side_id@));
                if !is_healthy(mf, mi, side_id@) {
                    assert(is_degraded(mf, mi, side_id@));
                }
            }
            let ghost prev = out@;
            out.push(side_id);
            proof {
                crate::index::lemma_push_id(prev, out@, out@[prev.len() as int]);
            }
        }
        j = j + 1;
    }
    out
}

/// Appending a stored item changes no existing lookup and answers for the
/// new name only when it was free.
proof fn lemma_file_lookup_push(mf: Seq<(Seq<char>, bool)>, x: (Seq<char>, bool), id: Seq<char>)
    ensures
        file_lookup(mf.push(x), id) == if file_lookup(mf, id) is Some {
            file_lookup(mf, id)
        } else if x.0 == id {
            Some(x.1)
        } else {
            None
        },
    decreases mf.len(),
{
    if mf.len() == 0 {
        assert(mf.push(x).drop_first() =~= Seq::<(Seq<char>, bool)>::empty());
    } else {
        assert(mf.push(x).drop_first() =~= mf.drop_first().push(x));
        lemma_file_lookup_push(mf.drop_first(), x, id);
    }
}

/// Appending a metadata file changes no existing lookup and answers for the
/// new identifier only when it was free.
proof fn lemma_info_lookup_push(
    mi: Seq<(Seq<char>, Seq<char>)>,
    x: (Seq<char>, Seq<char>),
    id: Seq<char>,
)
    ensures
        info_lookup(mi.push(x), id) == if info_lookup(mi, id) is Some {
            info_lookup(mi, id)
        } else if info_id_of(x.0) == Some(id) {
            Some(x.1)
        } else {
            None
        },
    decreases mi.len(),
{
    if mi.len() == 0 {
        assert(mi.push(x).drop_first() =~= Seq::<(Seq<char>, Seq<char>)>::empty());
    } else {
        assert(mi.push(x).drop_first() =~= mi.drop_first().push(x));
        lemma_info_lookup_push(mi.drop_first(), x, id);
    }
}

/// The metadata file name of a nonempty identifier stands for exactly that
/// identifier.
proof fn lemma_info_name_of_id(id: Seq<char>)
    requires
        id.len() > 0,
    ensures
        info_id_of(id + info_suffix()) == Some(id),
{
    let name = id + info_suffix();
    assert(name.skip(id.len() as int) =~= info_suffix());
    assert(name.take(id.len() as int) =~= id);
}

/// Putting an item under a fresh identifier — content into `files/`, its
/// serialized record into `info/` — makes exactly that identifier healthy,
/// carrying the recorded path and deletion time, and leaves the health and
/// record of every other identifier untouched.
pub proof fn lemma_put_creates_healthy_entry(
    mf: Seq<(Seq<char>, bool)>,
    mi: Seq<(Seq<char>, Seq<char>)>,
    id: Seq<char>,
    is_dir: bool,
    path: Seq<char>,
    date: crate::datetime::DateTime,
)
    requires
        id.len() > 0,
        file_lookup(mf, id) is None,
        info_lookup(mi, id) is None,
        is_absolute_path(path),
        !path.contains('\n'),
        date.wf(),
    ensures
        ({
            let mf2 = mf.push((id, is_dir));
            let mi2 = mi.push((id + info_suffix(), spec_serialize_info(path, date)));
            &&& is_healthy(mf2, mi2, id)
            &&& crate::index::record_of(mi2, id) == (crate::info::InfoModel { path, date })
            &&& file_lookup(mf2, id) == Some(is_dir)
            &&& forall|other: Seq<char>|
                other != id ==> #[trigger] is_healthy(mf2, mi2, other) == is_healthy(mf, mi, other)
            &&& forall|other: Seq<char>|
                other != id && is_healthy(mf, mi, other) ==> #[trigger] crate::index::record_of(
                    mi2,
                    other,
                ) == crate::index::record_of(mi, other)
        }),
{
    let mf2 = mf.push((id, is_dir));
    let name = id + info_suffix();
    let text = spec_serialize_info(path, date);
    let mi2 = mi.push((name, text));
    lemma_info_name_of_id(id);
    lemma_file_lookup_push(mf, (id, is_dir), id);
    lemma_info_lookup_push(mi, (name, text), id);
    crate::info::lemma_info_round_trip(path, date);
    assert forall|other: Seq<char>| other != id implies #[trigger] is_healthy(mf2, mi2, other)
        == is_healthy(mf, mi, other) by {
        lemma_file_lookup_push(mf, (id, is_dir), other);
        lemma_info_lookup_push(mi, (name, text), other);
    }
    assert forall|other: Seq<char>|
        other != id && is_healthy(mf, mi, other) implies #[trigger] crate::index::record_of(
        mi2,
        other,
    ) == crate::index::record_of(mi, other) by {
        lemma_info_lookup_push(mi, (name, text), other);
    }
}

/// Immediately after a put, reconciliation shows exactly one healthy entry
/// under the chosen identifier, and it carries the recorded original path
/// and deletion time.
pub proof fn lemma_put_then_reconcile(
    mf: Seq<(Seq<char>, bool)>,
    mi: Seq<(Seq<char>, Seq<char>)>,
    id: Seq<char>,
    is_dir: bool,
    path: Seq<char>,
    date: crate::datetime::DateTime,
    es: Seq<TrashEntry>,
    ds: Seq<String>,
)
    requires
        id.len() > 0,
        file_lookup(mf, id) is None,
        info_lookup(mi, id) is None,
        is_absolute_path(path),
        !path.contains('\n'),
        date.wf(),
        crate::index::reconcile_post(
            mf.push((id, is_dir)),
            mi.push((id + info_suffix(), spec_serialize_info(path, date))),
            es,
            ds,
        ),
    ensures
        exists|k: int|
            0 <= k < es.len() && (#[trigger] es[k]).id@ == id && es[k].info.model() == (
            crate::info::InfoModel { path, date }),
        forall|k1: int, k2: int|
            0 <= k1 < es.len() && 0 <= k2 < es.len() && (#[trigger] es[k1]).id@ == id && (
            #[trigger] es[k2]).id@ == id ==> k1 == k2,
{
    let mf2 = mf.push((id, is_dir));
    let mi2 = mi.push((id + info_suffix(), spec_serialize_info(path, date)));
    lemma_put_creates_healthy_entry(mf, mi, id, is_dir, path, date);
    assert(mf2[mf.len() as int].0 == id);
    assert(is_healthy(mf2, mi2, mf2[mf.len() as int].0));
    assert(crate::index::entries_contain_id(es, id));
    let k = choose|k: int| 0 <= k < es.len() && (#[trigger] es[k]).id@ == id;
    assert(es[k].info.model() == crate::index::record_of(mi2, es[k].id@));
    assert forall|k1: int, k2: int|
        0 <= k1 < es.len() && 0 <= k2 < es.len() && (#[trigger] es[k1]).id@ == id && (
        #[trigger] es[k2]).id@ == id implies k1 == k2 by {
        if k1 < k2 {
            assert(es[k1].id@ != es[k2].id@);
        } else if k2 < k1 {
            assert(es[k2].id@ != es[k1].id@);
        }
    }
}

/// A trash root holding exactly two items put under distinct identifiers,
/// the first strictly earlier than the second, reconciles to exactly those
/// two healthy entries, earlier deletion time first, each carrying its
/// recorded path and time — and to no degraded identifier at all.
#[verifier::rlimit(60)]
pub proof fn lemma_two_puts_listing_order(
    id1: Seq<char>,
    id2: Seq<char>,
    d1: bool,
    d2: bool,
    path1: Seq<char>,
    path2: Seq<char>,
    date1: crate::datetime::DateTime,
    date2: crate::datetime::DateTime,
    es: Seq<TrashEntry>,
    ds: Seq<String>,
)
    requires
        id1.len() > 0,
        id2.len() > 0,
        id1 != id2,
        is_absolute_path(path1),
        !path1.contains('\n'),
        date1.wf(),
        is_absolute_path(path2),
        !path2.contains('\n'),
        date2.wf(),
        date1 != date2,
        crate::datetime::date_le(date1, date2),
        crate::index::reconcile_post(
            seq![(id1, d1), (id2, d2)],
            seq![
                (id1 + info_suffix(), spec_serialize_info(path1, date1)),
                (id2 + info_suffix(), spec_serialize_info(path2, date2)),
            ],
            es,
            ds,
        ),
    ensures
        es.len() == 2,
        es[0].id@ == id1 && es[0].info.model() == (crate::info::InfoModel {
            path: path1,
            date: date1,
        }),
        es[1].id@ == id2 && es[1].info.model() == (crate::info::InfoModel {
            path: path2,
            date: date2,
        }),
        ds.len() == 0,
{
    let e: Seq<(Seq<char>, bool)> = Seq::empty();
    let ei: Seq<(Seq<char>, Seq<char>)> = Seq::empty();
    let x1 = (id1 + info_suffix(), spec_serialize_info(path1, date1));
    let x2 = (id2 + info_suffix(), spec_serialize_info(path2, date2));
    let mf1 = e.push((id1, d1));
    let mi1 = ei.push(x1);
    let mf = seq![(id1, d1), (id2, d2)];
    let mi = seq![x1, x2];
    assert(mf =~= mf1.push((id2, d2)));
    assert(mi =~= mi1.push(x2));
    lemma_info_name_of_id(id1);
    lemma_info_name_of_id(id2);
    lemma_put_creates_healthy_entry(e, ei, id1, d1, path1, date1);
    lemma_file_lookup_push(e, (id1, d1), id2);
    lemma_info_lookup_push(ei, x1, id2);
    lemma_put_creates_healthy_entry(mf1, mi1, id2, d2, path2, date2);
    assert(is_healthy(mf, mi, id1));
    assert(is_healthy(mf, mi, id2));
    assert(crate::index::record_of(mi, id1) == (crate::info::InfoModel {
        path: path1,
        date: date1,
    }));
    assert(crate::index::record_of(mi, id2) == (crate::info::InfoModel {
        path: path2,
        date: date2,
    }));
    // every entry's identifier is one of the two
    assert forall|k: int| 0 <= k < es.len() implies (#[trigger] es[k]).id@ == id1 || es[k].id@
        == id2 by {
        assert(is_healthy(mf, mi, es[k].id@));
        crate::index::lemma_file_lookup_present(mf, es[k].id@);
        let j = choose|j: int| 0 <= j < mf.len() && (#[trigger] mf[j]).0 == es[k].id@;
        assert(j == 0 || j == 1);
    }
    // both identifiers appear
    assert(mf[0].0 == id1 && is_healthy(mf, mi, mf[0].0));
    assert(mf[1].0 == id2 && is_healthy(mf, mi, mf[1].0));
    assert(crate::index::entries_contain_id(es, id1));
    assert(crate::index::entries_contain_id(es, id2));
    let k1 = choose|k: int| 0 <= k < es.len() && (#[trigger] es[k]).id@ == id1;
    let k2 = choose|k: int| 0 <= k < es.len() && (#[trigger] es[k]).id@ == id2;
    assert(k1 != k2);
    assert(es.len() >= 2);
    if es.len() > 2 {
        assert(es[0].id@ != es[1].id@ && es[0].id@ != es[2].id@ && es[1].id@ != es[2].id@);
        assert(false);
    }
    // listing order: the strictly earlier deletion time comes first
    let em = crate::index::entries_model(es);
    assert(em[0] == es[0].model() && em[1] == es[1].model());
    assert(crate::index::entry_le(em[0], em[1]));
    assert(es[0].info.model() == crate::index::record_of(mi, es[0].id@));
    assert(es[1].info.model() == crate::index::record_of(mi, es[1].id@));
    if es[0].id@ == id2 {
        assert(em[0].info.date == date2 && em[1].info.date == date1);
        assert(crate::datetime::date_le(date2, date1));
        assert(false);
    }
    // nothing is degraded
    assert forall|k: int| 0 <= k < ds.len() implies is_healthy(mf, mi, (#[trigger] ds[k])@) by {
        assert(is_degraded(mf, mi, ds[k]@));
        if file_lookup(mf, ds[k]@) is Some {
            crate::index::lemma_file_lookup_present(mf, ds[k]@);
            let j = choose|j: int| 0 <= j < mf.len() && (#[trigger] mf[j]).0 == ds[k]@;
            assert(j == 0 || j == 1);
            assert(is_healthy(mf, mi, ds[k]@));
        } else {
            let j = choose|j: int| 0 <= j < mi.len() && info_side_id(#[trigger] mi[j].0) == ds[k]@;
            assert(j == 0 || j == 1);
            assert(info_side_id(mi[0].0) == id1);
            assert(info_side_id(mi[1].0) == id2);
            assert(is_healthy(mf, mi, ds[k]@));
        }
    }
    if ds.len() > 0 {
        assert(is_healthy(mf, mi, ds[0]@));
        assert(is_degraded(mf, mi, ds[0]@));
        assert(false);
    }
}

/// After both halves of an identifier are gone — as a completed restore or
/// purge leaves them — reconciliation reports it neither healthy nor
/// degraded: the entry is absent.
pub proof fn lemma_entry_absent_after_removal(
    mf: Seq<(Seq<char>, bool)>,
    mi: Seq<(Seq<char>, Seq<char>)>,
    es: Seq<TrashEntry>,
    ds: Seq<String>,
    id: Seq<char>,
)
    requires
        crate::index::reconcile_post(mf, mi, es, ds),
        file_lookup(mf, id) is None,
        !info_side_present(mi, id),
    ensures
        !crate::index::entries_contain_id(es, id),
        !ids_contain(ds, id),
{
    if crate::index::entries_contain_id(es, id) {
        let k = choose|k: int| 0 <= k < es.len() && (#[trigger] es[k]).id@ == id;
        assert(is_healthy(mf, mi, es[k].id@));
        assert(false);
    }
    if ids_contain(ds, id) {
        let k = choose|k: int| 0 <= k < ds.len() && (#[trigger] ds[k])@ == id;
        assert(is_degraded(mf, mi, ds[k]@));
        assert(false);
    }
}

/// A stored item whose metadata half is missing is reported degraded by
/// reconciliation, and never listed healthy.
pub proof fn lemma_missing_metadata_reported_degraded(
    mf: Seq<(Seq<char>, bool)>,
    mi: Seq<(Seq<char>, Seq<char>)>,
    es: Seq<TrashEntry>,
    ds: Seq<String>,
    j: int,
)
    requires
        crate::index::reconcile_post(mf, mi, es, ds),
        0 <= j < mf.len(),
        info_lookup(mi, mf[j].0) is None,
    ensures
        ids_contain(ds, mf[j].0),
        !crate::index::entries_contain_id(es, mf[j].0),
{
    assert(!is_healthy(mf, mi, mf[j].0));
    if crate::index::entries_contain_id(es, mf[j].0) {
        let k = choose|k: int| 0 <= k < es.len() && (#[trigger] es[k]).id@ == mf[j].0;
        assert(is_healthy(mf, mi, es[k].id@));
        assert(false);
    }
}

} // verus!
