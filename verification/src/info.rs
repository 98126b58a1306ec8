//! The per-item metadata record: the original location of a trashed item and
//! the moment of its deletion, parsed from and serialized into one canonical
//! text form.

use vstd::prelude::*;
use crate::datetime::DateTime;
use crate::datetime::spec_parse_datetime;
use crate::datetime::lemma_datetime_round_trip;
use crate::datetime::lemma_format_len;
use crate::strutil::is_absolute_path;
use crate::strutil::contains_char;
use crate::strutil::is_absolute;
use crate::strutil::match_at;

verus! {

/// Why a metadata record text was rejected.
#[derive(Clone, Copy, Debug, PartialEq, Eq, Structural)]
pub enum ParseError {
    /// The text does not begin with the `[Trash Info]` section header.
    MissingHeader,
    /// The line after the header does not carry the `Path` key.
    MissingPath,
    /// The `Path` value is empty, not absolute, or runs over several lines.
    MalformedPath,
    /// The record does not end with a `DeletionDate` key and value.
    MissingDeletionDate,
    /// The `DeletionDate` value is not a timestamp in canonical form.
    BadDate,
}

/// A metadata record: where a trashed item originally lived and when it was
/// deleted.
#[derive(Clone, Debug)]
pub struct TrashInfo {
    pub path: String,
    pub deletion_date: DateTime,
}

/// The mathematical content of a metadata record.
pub ghost struct InfoModel {
    pub path: Seq<char>,
    pub date: DateTime,
}

impl TrashInfo {
    /// The mathematical content of this record.
    pub open spec fn model(self) -> InfoModel {
        InfoModel { path: self.path@, date: self.deletion_date }
    }

    /// A well-formed record: an absolute single-line original path and a
    /// well-formed deletion timestamp.
    pub open spec fn wf(self) -> bool {
        info_model_wf(self.model())
    }
}

/// A well-formed record content: an absolute single-line original path and a
/// well-formed deletion timestamp.
pub open spec fn info_model_wf(m: InfoModel) -> bool {
    &&& is_absolute_path(m.path)
    &&& !m.path.contains('\n')
    &&& m.date.wf()
}

/// The `[Trash Info]` section header line.
pub open spec fn header_text() -> Seq<char> {
    seq!['[', 'T', 'r', 'a', 's', 'h', ' ', 'I', 'n', 'f', 'o', ']', '\n']
}

/// The key of the `Path` line.
pub open spec fn path_key_text() -> Seq<char> {
    seq!['P', 'a', 't', 'h', '=']
}

/// The end of the `Path` line and the key of the `DeletionDate` line.
pub open spec fn date_key_text() -> Seq<char> {
    seq!['\n', 'D', 'e', 'l', 'e', 't', 'i', 'o', 'n', 'D', 'a', 't', 'e', '=']
}

/// The canonical record text: header line, `Path` line, `DeletionDate` line.
pub open spec fn spec_serialize_info(path: Seq<char>, date: DateTime) -> Seq<char> {
    header_text() + path_key_text() + path + date_key_text() + date.spec_format() + seq!['\n']
}

/// What parsing a record text yields: the recorded path and timestamp when
/// the text is canonical, and the first structural fault otherwise. The
/// record must hold the header and exactly the two keys `Path` and
/// `DeletionDate`; the date anchors the text's tail since its canonical form
/// has fixed length.
pub open spec fn spec_parse_info(s: Seq<char>) -> Result<InfoModel, ParseError> {
    if !(s.len() >= 13 && s.subrange(0, 13) == header_text()) {
        Err(ParseError::MissingHeader)
    } else if !(s.len() >= 18 && s.subrange(13, 18) == path_key_text()) {
        Err(ParseError::MissingPath)
    } else if !(s.len() >= 52 && s.subrange(s.len() - 34, s.len() - 20) == date_key_text() && s[
        s.len() - 1
    ] == '\n') {
        Err(ParseError::MissingDeletionDate)
    } else if !(is_absolute_path(s.subrange(18, s.len() - 34)) && !s.subrange(
        18,
        s.len() - 34,
    ).contains('\n')) {
        Err(ParseError::MalformedPath)
    } else {
        match spec_parse_datetime(s.subrange(s.len() - 20, s.len() - 1)) {
            Some(date) => Ok(InfoModel { path: s.subrange(18, s.len() - 34), date }),
            None => Err(ParseError::BadDate),
        }
    }
}

impl TrashInfo {
    /// Renders this record in its canonical text form.
    pub fn serialize(&self) -> (r: String)
        requires
            self.wf(),
        ensures
            r@ == spec_serialize_info(self.path@, self.deletion_date),
    {
        let mut r = String::from_str("[Trash Info]\n");
        r.append("Path=");
        r.append(self.path.as_str());
        r.append("\nDeletionDate=");
        r.append(self.deletion_date.format().as_str());
        r.append("\n");
        proof {
            reveal_strlit("[Trash Info]\n");
            reveal_strlit("Path=");
            reveal_strlit("\nDeletionDate=");
            reveal_strlit("\n");
            assert(r@ =~= spec_serialize_info(self.path@, self.deletion_date));
        }
        r
    }

    /// Parses a record from its canonical text form, or reports the first
    /// structural fault. A rejected text is a corruption to report, never a
    /// reason to substitute defaults.
    pub fn parse(s: &str) -> (r: Result<TrashInfo, ParseError>)
        ensures
            r matches Ok(rec) ==> spec_parse_info(s@) == Ok::<InfoModel, ParseError>(rec.model())
                && rec.wf(),
            r matches Err(e) ==> spec_parse_info(s@) == Err::<InfoModel, ParseError>(e),
    {
        let len = s.unicode_len();
        proof {
            reveal_strlit("[Trash Info]\n");
            reveal_strlit("Path=");
            reveal_strlit("\nDeletionDate=");
            assert("[Trash Info]\n"@ =~= header_text());
            assert("Path="@ =~= path_key_text());
            assert("\nDeletionDate="@ =~= date_key_text());
        }
        if !(len >= 13 && match_at(s, 0, "[Trash Info]\n")) {
            return Err(ParseError::MissingHeader);
        }
        if !(len >= 18 && match_at(s, 13, "Path=")) {
            return Err(ParseError::MissingPath);
        }
        if !(len >= 52 && match_at(s, len - 34, "\nDeletionDate=") && s.get_char(len - 1) == '\n') {
            return Err(ParseError::MissingDeletionDate);
        }
        let path_part = s.substring_char(18, len - 34);
        if !(is_absolute(path_part) && !contains_char(path_part, '\n')) {
            return Err(ParseError::MalformedPath);
        }
        let date_part = s.substring_char(len - 20, len - 1);
        match DateTime::parse(date_part) {
            Some(date) => Ok(TrashInfo { path: String::from_str(path_part), deletion_date: date }),
            None => Err(ParseError::BadDate),
        }
    }

    /// A copy of this record that carries the same content.
    pub fn duplicate(&self) -> (r: TrashInfo)
        ensures
            r.model() == self.model(),
    {
        TrashInfo { path: self.path.clone(), deletion_date: self.deletion_date }
    }

    /// Parses a timestamp in the canonical form `YYYY-MM-DDTHH:MM:SS`, or
    /// reports it as unparseable.
    pub fn parse_date(date: String) -> (r: Result<DateTime, ParseError>)
        ensures
            r == match spec_parse_datetime(date@) {
                Some(d) => Ok::<DateTime, ParseError>(d),
                None => Err::<DateTime, ParseError>(ParseError::BadDate),
            },
    {
        match DateTime::parse(date.as_str()) {
            Some(d) => Ok(d),
            None => Err(ParseError::BadDate),
        }
    }

    /// Builds a record from an original path and a deletion timestamp given
    /// in the canonical text form, which must be valid.
    pub fn new(path: String, deletion_date: String) -> (r: TrashInfo)
        requires
            spec_parse_datetime(deletion_date@) is Some,
        ensures
            r.path@ == path@,
            Some(r.deletion_date) == spec_parse_datetime(deletion_date@),
    {
        match DateTime::parse(deletion_date.as_str()) {
            Some(d) => TrashInfo { path, deletion_date: d },
            None => {
                proof {
                    assert(false);
                }
                vstd::pervasive::unreached()
            },
        }
    }
}

/// Serializing a well-formed record and parsing the result yields the same
/// record: the canonical text form loses nothing.
pub proof fn lemma_info_round_trip(path: Seq<char>, date: DateTime)
    requires
        is_absolute_path(path),
        !path.contains('\n'),
        date.wf(),
    ensures
        spec_parse_info(spec_serialize_info(path, date)) == Ok::<InfoModel, ParseError>(
            InfoModel { path, date },
        ),
{
    let s = spec_serialize_info(path, date);
    lemma_format_len(date);
    assert(s.len() == 52 + path.len());
    assert(s.subrange(0, 13) =~= header_text());
    assert(s.subrange(13, 18) =~= path_key_text());
    assert(s.subrange(s.len() - 34, s.len() - 20) =~= date_key_text());
    assert(s[s.len() - 1] == '\n');
    assert(s.subrange(18, s.len() - 34) =~= path);
    assert(s.subrange(s.len() - 20, s.len() - 1) =~= date.spec_format());
    lemma_datetime_round_trip(date);
}

} // verus!
