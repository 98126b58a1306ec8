//! The trash root as a value: its path and the reconciled contents of its
//! two halves.

use vstd::prelude::*;
use crate::datetime::date_le;
use crate::index::files_model;
use crate::index::infos_model;
use crate::index::is_healthy;
use crate::index::record_of;
use crate::index::reconcile;
use crate::info::TrashInfo;
use crate::ops::PutError;
use crate::strutil::base_name;
use crate::strutil::basename_of;

verus! {

/// Whether some record in `recs` carries the content `rec`.
pub open spec fn holds_record(recs: Seq<TrashInfo>, rec: crate::info::InfoModel) -> bool {
    exists|k: int| 0 <= k < recs.len() && (#[trigger] recs[k]).model() == rec
}

/// Whether `rec` is the record of some healthy identifier of the listings.
pub open spec fn is_healthy_record(
    mf: Seq<(Seq<char>, bool)>,
    mi: Seq<(Seq<char>, Seq<char>)>,
    rec: TrashInfo,
) -> bool {
    exists|id: Seq<char>| is_healthy(mf, mi, id) && rec.model() == record_of(mi, id)
}

/// A trash root: its path, the names stored under `files/`, and the parsed
/// records of its healthy entries.
#[derive(Debug)]
pub struct Trash {
    pub files: Vec<String>,
    pub info: Vec<TrashInfo>,
    pub path: String,
}

impl Trash {
    /// Builds a trash value from its parts.
    pub fn from(files: Vec<String>, info: Vec<TrashInfo>, path: String) -> (t: Trash)
        ensures
            t.files@ == files@,
            t.info@ == info@,
            t.path@ == path@,
    {
        Trash { files, info, path }
    }

    /// An empty trash value at `path`.
    pub fn new(path: String) -> (t: Trash)
        ensures
            t.files@.len() == 0,
            t.info@.len() == 0,
            t.path@ == path@,
    {
        Trash { files: Vec::new(), info: Vec::new(), path }
    }

    /// Where a source path's content goes under this root: the item keeps
    /// its base name inside `files/`. A missing source is an error, not a
    /// move.
    pub fn add(&self, file: &str, file_exists: bool) -> (r: Result<String, PutError>)
        ensures
            file_exists ==> (r matches Ok(dest) && dest@ == self.path@ + "/files/"@ + basename_of(
                file@,
            )),
            !file_exists ==> (r matches Err(PutError::SourceMissing { path }) && path@ == file@),
    {
        if file_exists {
            let mut dest = self.path.clone();
            dest.append("/files/");
            dest.append(base_name(file).as_str());
            Ok(dest)
        } else {
            Err(PutError::SourceMissing { path: String::from_str(file) })
        }
    }

    /// Rebuilds a trash value from the listings of a root's two halves: all
    /// the stored names, and the records of the healthy entries in listing
    /// order — deletion time ascending.
    pub fn auto_recon_trash(
        path: String,
        files: Vec<(String, bool)>,
        infos: Vec<(String, String)>,
    ) -> (t: Trash)
        ensures
            t.path@ == path@,
            t.files@.len() == files@.len(),
            forall|k: int|
                0 <= k < files@.len() ==> (#[trigger] t.files@[k])@ == files_model(files@)[k].0,
            forall|k: int|
                0 <= k < t.info@.len() ==> is_healthy_record(
                    files_model(files@),
                    infos_model(infos@),
                    #[trigger] t.info@[k],
                ),
            forall|j: int|
                0 <= j < files@.len() && is_healthy(
                    files_model(files@),
                    infos_model(infos@),
                    (#[trigger] files_model(files@)[j]).0,
                ) ==> holds_record(
                    t.info@,
                    record_of(infos_model(infos@), files_model(files@)[j].0),
                ),
            forall|k1: int, k2: int|
                0 <= k1 < k2 < t.info@.len() ==> date_le(
                    (#[trigger] t.info@[k1]).deletion_date,
                    (#[trigger] t.info@[k2]).deletion_date,
                ),
            exists|es: Seq<crate::index::TrashEntry>, ds: Seq<String>|
                #[trigger] crate::index::reconcile_post(
                    files_model(files@),
                    infos_model(infos@),
                    es,
                    ds,
                ) && t.info@.len() == es.len() && (forall|k: int|
                    0 <= k < es.len() ==> (#[trigger] t.info@[k]).model() == es[k].info.model()),
    {
        let ghost mf = files_model(files@);
        let ghost mi = infos_model(infos@);
        let (entries, _degraded) = reconcile(&files, &infos);
        let nf = files.len();
        let mut names: Vec<String> = Vec::new();
        let mut i: usize = 0;
        while i < nf
            invariant
                i <= nf,
                nf == files@.len(),
                mf == files_model(files@),
                names@.len() == i,
                forall|k: int| 0 <= k < i ==> (#[trigger] names@[k])@ == mf[k].0,
            decreases nf - i,
        {
            proof {
                assert(mf[i as int] == (files@[i as int].0@, files@[i as int].1));
            }
            names.push(files[i].0.clone());
            i = i + 1;
        }
        let ne = entries.len();
        let mut recs: Vec<TrashInfo> = Vec::new();
        let mut k: usize = 0;
        while k < ne
            invariant
                k <= ne,
                ne == entries@.len(),
                mf == files_model(files@),
                mi == infos_model(infos@),
                crate::index::reconcile_post(mf, mi, entries@, _degraded@),
                recs@.len() == k,
                forall|kk: int|
                    0 <= kk < k ==> (#[trigger] recs@[kk]).model() == entries@[kk].info.model(),
            decreases ne - k,
        {
            recs.push(entries[k].info.duplicate());
            k = k + 1;
        }
        proof {
            assert forall|kk: int| 0 <= kk < recs@.len() implies is_healthy_record(
                files_model(files@),
                infos_model(infos@),
                #[trigger] recs@[kk],
            ) by {
                let id = entries@[kk].id@;
                assert(is_healthy(files_model(files@), infos_model(infos@), id) && recs@[kk].model()
                    == record_of(infos_model(infos@), id));
            }
            assert forall|j: int|
                0 <= j < files@.len() && is_healthy(
                    files_model(files@),
                    infos_model(infos@),
                    (#[trigger] files_model(files@)[j]).0,
                ) implies holds_record(
                recs@,
                record_of(infos_model(infos@), files_model(files@)[j].0),
            ) by {
                let fid = files_model(files@)[j].0;
                assert(crate::index::entries_contain_id(entries@, fid));
                let k0 = choose|k0: int|
                    0 <= k0 < entries@.len() && (#[trigger] entries@[k0]).id@ == fid;
                assert(entries@[k0].info.model() == record_of(mi, fid));
                assert(recs@[k0].model() == record_of(infos_model(infos@), fid));
            }
            assert forall|k1: int, k2: int| 0 <= k1 < k2 < recs@.len() implies date_le(
                (#[trigger] recs@[k1]).deletion_date,
                (#[trigger] recs@[k2]).deletion_date,
            ) by {
                let em = crate::index::entries_model(entries@);
                assert(crate::index::entry_le(em[k1], em[k2]));
                assert(em[k1].info.date == recs@[k1].deletion_date);
                assert(em[k2].info.date == recs@[k2].deletion_date);
            }
            assert(crate::index::reconcile_post(
                files_model(files@),
                infos_model(infos@),
                entries@,
                _degraded@,
            ) && recs@.len() == entries@.len() && (forall|k: int|
                0 <= k < entries@.len() ==> (#[trigger] recs@[k]).model()
                    == entries@[k].info.model()));
        }
        Trash { files: names, info: recs, path }
    }
}

} // verus!
