//! Deterministic text rendering: the per-record summary handed to the
//! embedding model, the retrieved-history digest, and the system prompt
//! that carries the digest to the completion endpoint.

use vstd::prelude::*;
use vstd::string::StringExecFns;
use crate::numfmt::{dec_str, int_str, u64_dec_str, i64_dec_str};
use crate::record::{RecordModel, WorkoutRecord, volume_or_zero};
use crate::store::models;

verus! {

/// The line of text a record is summarized as before being embedded.
pub open spec fn summary_model(r: RecordModel) -> Seq<char> {
    "Workout: "@ + r.name + ". Status: "@ + r.status + ". Volume: "@ + dec_str(
        volume_or_zero(r) as nat,
    ) + "kg. Date: "@ + int_str(r.start_time as int)
}

/// Renders the text whose embedding summarizes a record.
pub fn summary_text(w: &WorkoutRecord) -> (s: String)
    ensures
        s@ == summary_model(w@),
{
    let mut s = String::from_str("Workout: ");
    s.append(w.name.as_str());
    s.append(". Status: ");
    s.append(w.status.as_str());
    s.append(". Volume: ");
    let vol: u64 = match w.volume_kg {
        Some(v) => v,
        None => 0,
    };
    let vs = u64_dec_str(vol);
    s.append(vs.as_str());
    s.append("kg. Date: ");
    let ds = i64_dec_str(w.start_time);
    s.append(ds.as_str());
    proof {
        assert(s@ =~= summary_model(w@));
    }
    s
}

/// One digest line: name, start time, and volume of a retrieved record,
/// with an absent volume rendered as zero.
pub open spec fn digest_line(r: RecordModel) -> Seq<char> {
    "- "@ + r.name + " on "@ + int_str(r.start_time as int) + " (Vol: "@ + dec_str(
        volume_or_zero(r) as nat,
    ) + "kg)\n"@
}

/// The digest lines for a sequence of records, in the given order.
pub open spec fn digest_lines(rs: Seq<RecordModel>) -> Seq<char>
    decreases rs.len(),
{
    if rs.len() == 0 {
        Seq::empty()
    } else {
        digest_lines(rs.drop_last()) + digest_line(rs.last())
    }
}

/// The whole context digest: empty for an empty retrieval, and otherwise a
/// heading followed by one line per record, nearest first.
pub open spec fn digest_model(rs: Seq<RecordModel>) -> Seq<char> {
    if rs.len() == 0 {
        Seq::empty()
    } else {
        "Here is the user's relevant workout history:\n"@ + digest_lines(rs)
    }
}

/// Renders one digest line.
fn digest_line_text(w: &WorkoutRecord) -> (s: String)
    ensures
        s@ == digest_line(w@),
{
    let mut s = String::from_str("- ");
    s.append(w.name.as_str());
    s.append(" on ");
    let ds = i64_dec_str(w.start_time);
    s.append(ds.as_str());
    s.append(" (Vol: ");
    let vol: u64 = match w.volume_kg {
        Some(v) => v,
        None => 0,
    };
    let vs = u64_dec_str(vol);
    s.append(vs.as_str());
    s.append("kg)\n");
    proof {
        assert(s@ =~= digest_line(w@));
    }
    s
}

/// Renders the retrieved records as the context digest: the empty string
/// when nothing was retrieved, and otherwise a heading and a line per
/// record in the given (nearest-first) order.
pub fn context_digest(records: &Vec<WorkoutRecord>) -> (s: String)
    ensures
        s@ == digest_model(models(records@)),
{
    let ghost rv = models(records@);
    if records.len() == 0 {
        return String::new();
    }
    let mut s = String::from_str("Here is the user's relevant workout history:\n");
    let mut i: usize = 0;
    while i < records.len()
        invariant
            rv == models(records@),
            rv.len() == records@.len(),
            0 < records@.len(),
            0 <= i <= records@.len(),
            s@ == "Here is the user's relevant workout history:\n"@ + digest_lines(
                rv.take(i as int),
            ),
        decreases records@.len() - i,
    {
        let line = digest_line_text(&records[i]);
        s.append(line.as_str());
        proof {
            assert(rv.take(i + 1 as int).drop_last() =~= rv.take(i as int));
            assert(rv.take(i + 1 as int).last() == rv[i as int]);
            assert(rv[i as int] == records@[i as int]@);
            assert(s@ =~= "Here is the user's relevant workout history:\n"@ + digest_lines(
                rv.take(i + 1 as int),
            ));
        }
        i += 1;
    }
    proof {
        assert(rv.take(records@.len() as int) =~= rv);
    }
    s
}

/// The complete system prompt around a context digest: the coaching
/// persona and rules, the digest, and the instruction for an empty
/// history.
pub open spec fn prompt_model(digest: Seq<char>) -> Seq<char> {
    "You are VAEL, an elite fitness intelligence designed to forge human potential.\nYour demeanor is:\n- **Harsh but Fair**: You do not accept excuses. You demand consistency.\n- **Data-Driven**: You base your feedback on the `Relevant Workout History` provided below.\n- **Concise**: Speak in short, punchy sentences. No fluff. Max 2-3 sentences.\n\nYour Goal:\n- Push the user to achieve Progressive Overload.\n- Call them out if they are slacking (e.g., skipping days, low volume).\n- Praising them ONLY when they break a personal best or show extreme consistency.\n\nRelevant Workout History:\n"@
        + digest
        + "\n\nIf the history is empty, tell them they are a \"ghost\" and need to log data to exist.\n"@
}

/// Wraps a context digest in the fixed system-prompt template.
pub fn render_system_prompt(digest: &str) -> (s: String)
    ensures
        s@ == prompt_model(digest@),
{
    let mut s = String::from_str(
        "You are VAEL, an elite fitness intelligence designed to forge human potential.\nYour demeanor is:\n- **Harsh but Fair**: You do not accept excuses. You demand consistency.\n- **Data-Driven**: You base your feedback on the `Relevant Workout History` provided below.\n- **Concise**: Speak in short, punchy sentences. No fluff. Max 2-3 sentences.\n\nYour Goal:\n- Push the user to achieve Progressive Overload.\n- Call them out if they are slacking (e.g., skipping days, low volume).\n- Praising them ONLY when they break a personal best or show extreme consistency.\n\nRelevant Workout History:\n",
    );
    s.append(digest);
    s.append(
        "\n\nIf the history is empty, tell them they are a \"ghost\" and need to log data to exist.\n",
    );
    proof {
        assert(s@ =~= prompt_model(digest@));
    }
    s
}

} // verus!
