use vael_core::numfmt::{i64_dec_str, u64_dec_str};
use vael_core::prompt::{context_digest, render_system_prompt, summary_text};
use vael_core::record::WorkoutRecord;

fn rec(name: &str, start_time: i64, volume_kg: Option<u64>) -> WorkoutRecord {
    WorkoutRecord {
        id: 1,
        owner_id: 7,
        name: name.to_string(),
        status: "completed".to_string(),
        start_time,
        end_time: None,
        volume_kg,
        created_at: start_time,
        last_modified: start_time,
        embedding: None,
    }
}

#[test]
fn decimal_rendering_is_exact() {
    assert_eq!(u64_dec_str(0), "0");
    assert_eq!(u64_dec_str(80), "80");
    assert_eq!(u64_dec_str(1234567890), "1234567890");
    assert_eq!(i64_dec_str(-42), "-42");
    assert_eq!(i64_dec_str(0), "0");
    assert_eq!(i64_dec_str(i64::MIN), "-9223372036854775808");
    assert_eq!(u64_dec_str(u64::MAX), "18446744073709551615");
}

#[test]
fn summary_line_is_exact() {
    let s = summary_text(&rec("Bench Press", 1_700_000_000, Some(100)));
    assert_eq!(
        s,
        "Workout: Bench Press. Status: completed. Volume: 100kg. Date: 1700000000"
    );
}

#[test]
fn summary_renders_absent_volume_as_zero() {
    let s = summary_text(&rec("Run", -5, None));
    assert_eq!(s, "Workout: Run. Status: completed. Volume: 0kg. Date: -5");
}

#[test]
fn empty_retrieval_renders_an_empty_digest() {
    let digest = context_digest(&vec![]);
    assert_eq!(digest, "");
}

#[test]
fn digest_lists_records_in_given_order() {
    let digest = context_digest(&vec![
        rec("Bench Press", 1_700_000_000, Some(100)),
        rec("Run", 1_700_000_100, None),
    ]);
    assert_eq!(
        digest,
        "Here is the user's relevant workout history:\n\
         - Bench Press on 1700000000 (Vol: 100kg)\n\
         - Run on 1700000100 (Vol: 0kg)\n"
    );
}

#[test]
fn prompt_wraps_the_digest_in_the_fixed_template() {
    let prompt = render_system_prompt("DIGEST-HERE");
    assert!(prompt.starts_with(
        "You are VAEL, an elite fitness intelligence designed to forge human potential.\n"
    ));
    assert!(prompt.contains("Relevant Workout History:\nDIGEST-HERE\n\n"));
    assert!(prompt.ends_with(
        "If the history is empty, tell them they are a \"ghost\" and need to log data to exist.\n"
    ));
    // The template around the digest does not depend on the digest.
    let empty = render_system_prompt("");
    let refilled = empty.replace(
        "Relevant Workout History:\n\n",
        "Relevant Workout History:\nDIGEST-HERE\n",
    );
    assert_eq!(prompt, refilled);
}
