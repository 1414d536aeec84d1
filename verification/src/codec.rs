use vstd::prelude::*;
use crate::error::TodoError;
use crate::ids::{id_seq, parse_id_spec, format_id, parse_id};
use crate::record::{Archival, TodoRecord, RecordView};
use crate::text::{dec_seq_i64, dec_string_i64, matches_at};

verus! {

/// The stored text of an archival marker: `No` for a current record, `Yes`
/// for one retired without successor, `Replaced(<id>)` for one superseded
/// by the record with that id, the id in its canonical hyphenated form.
pub open spec fn archival_seq(a: Archival) -> Seq<char> {
    match a {
        Archival::Active => "No"@,
        Archival::Archived => "Yes"@,
        Archival::ReplacedBy(id) => "Replaced("@ + id_seq(id) + ")"@,
    }
}

/// Encodes an archival marker into its stored text.
pub fn encode_archival(a: &Archival) -> (s: String)
    ensures
        s@ == archival_seq(*a),
{
    match a {
        Archival::Active => "No".to_owned(),
        Archival::Archived => "Yes".to_owned(),
        Archival::ReplacedBy(id) => {
            proof {
                reveal_strlit(")");
            }
            let mut s = "Replaced(".to_owned();
            let idtext = format_id(*id);
            s.append(idtext.as_str());
            s.append(")");
            proof {
                assert(s@ =~= archival_seq(Archival::ReplacedBy(*id)));
            }
            s
        },
    }
}

/// What decoding a stored archival marker yields: the exact inverse shape
/// of `archival_seq`, everything else a deserialization failure.
pub open spec fn decode_archival_spec(s: Seq<char>) -> Result<Archival, TodoError> {
    if s == "No"@ {
        Ok(Archival::Active)
    } else if s == "Yes"@ {
        Ok(Archival::Archived)
    } else if s.len() == 46 && s.subrange(0, 9) == "Replaced("@ && s[45] == ')'
        && parse_id_spec(s.subrange(9, 45)) is Some {
        Ok(Archival::ReplacedBy(parse_id_spec(s.subrange(9, 45)).unwrap()))
    } else {
        Err(TodoError::DeserializationError)
    }
}

/// Decodes the stored text of an archival marker. Strict: only the exact
/// texts `encode_archival` writes, or the `Replaced(<id>)` shape with a
/// canonical id, parse; anything else is corrupt data.
pub fn decode_archival(s: &str) -> (r: Result<Archival, TodoError>)
    ensures
        r == decode_archival_spec(s@),
{
    proof {
        reveal_strlit("No");
        reveal_strlit("Yes");
        reveal_strlit("Replaced(");
    }
    let len = s.unicode_len();
    if len == 2 && matches_at(s, len, "No", 2, 0) {
        proof {
            assert(s@ =~= "No"@);
        }
        return Ok(Archival::Active);
    }
    if len == 3 && matches_at(s, len, "Yes", 3, 0) {
        proof {
            assert(s@ =~= "Yes"@);
        }
        return Ok(Archival::Archived);
    }
    if len == 46 && matches_at(s, len, "Replaced(", 9, 0) && s.get_char(45) == ')' {
        let inner = s.substring_char(9, 45);
        if let Some(id) = parse_id(inner) {
            return Ok(Archival::ReplacedBy(id));
        }
    }
    proof {
        lemma_strlit_shapes();
        if s@.len() == 2 {
            assert(s@.subrange(0, 2) =~= s@);
        }
        if s@.len() == 3 {
            assert(s@.subrange(0, 3) =~= s@);
        }
    }
    Err(TodoError::DeserializationError)
}

/// The literal marker texts have the lengths their spelling shows.
proof fn lemma_strlit_shapes()
    ensures
        "No"@.len() == 2,
        "Yes"@.len() == 3,
        "Replaced("@.len() == 9,
{
    reveal_strlit("No");
    reveal_strlit("Yes");
    reveal_strlit("Replaced(");
}

/// Law (archival round trip): decoding the stored text of any archival
/// marker gives the marker back.
pub proof fn lemma_archival_round_trip(a: Archival)
    ensures
        decode_archival_spec(archival_seq(a)) == Ok::<Archival, TodoError>(a),
{
    reveal_strlit("No");
    reveal_strlit("Yes");
    reveal_strlit("Replaced(");
    reveal_strlit(")");
    match a {
        Archival::Active => {
        },
        Archival::Archived => {
            assert("Yes"@.len() == 3 && "No"@.len() == 2);
        },
        Archival::ReplacedBy(x) => {
            let s = archival_seq(a);
            assert(s.len() == 46);
            assert(s.subrange(0, 9) =~= "Replaced("@);
            assert(s[45] == ')');
            assert(s.subrange(9, 45) =~= crate::ids::id_seq(x));
            crate::ids::lemma_id_round_trip(x);
        },
    }
}

/// The text of a completion flag inside the canonical record text.
pub open spec fn bool_seq(b: bool) -> Seq<char> {
    if b {
        "true"@
    } else {
        "false"@
    }
}

/// The canonical text of a record: every field, space-separated — the id
/// in hyphenated form, the note text, the completion flag, the creation
/// timestamp in decimal seconds, and the archival marker text. Free-text
/// search matches against this text, so a search can hit any field.
pub open spec fn canon_seq(rv: RecordView) -> Seq<char> {
    id_seq(rv.id) + " "@ + rv.text + " "@ + bool_seq(rv.done) + " "@ + dec_seq_i64(rv.date)
        + " "@ + archival_seq(rv.archival)
}

/// Renders the canonical text of a record.
pub fn canon_string(r: &TodoRecord) -> (s: String)
    ensures
        s@ == canon_seq(r@),
{
    proof {
        reveal_strlit(" ");
        reveal_strlit("true");
        reveal_strlit("false");
    }
    let mut s = format_id(r.id);
    s.append(" ");
    s.append(r.text.as_str());
    s.append(" ");
    if r.done {
        s.append("true");
    } else {
        s.append("false");
    }
    s.append(" ");
    let d = dec_string_i64(r.date);
    s.append(d.as_str());
    s.append(" ");
    let a = encode_archival(&r.archival);
    s.append(a.as_str());
    proof {
        assert(s@ =~= canon_seq(r@));
    }
    s
}

} // verus!
