use mewt::engine::utils::calculate_line_offset;
use mewt::types::hash::HashError;
use mewt::types::mutant::{Mutant, PartialMutant};
use mewt::types::mutation::MutationSeverity;
use mewt::types::outcome::{Status, Timestamp};
use mewt::types::target::{MutateError, Target};

fn hash(text: &str) -> mewt::types::hash::Hash {
    mewt::types::hash::Hash::digest(text.to_string())
}

#[test]
fn digest_is_sha256_in_lower_case_hex() {
    assert_eq!(
        hash("").to_hex(),
        "e3b0c44298fc1c149afbf4c8996fb92427ae41e4649b934ca495991b7852b855"
    );
    assert_eq!(
        hash("abc").to_hex(),
        "ba7816bf8f01cfea414140de5dae2223b00361a396177a9cb410ff61f20015ad"
    );
    assert_ne!(hash("abc"), hash("abd"));
    assert!(hash("abc").same_as(&hash("abc")));
    assert!(!hash("abc").same_as(&hash("")));
}

#[test]
fn a_hash_is_read_from_hex_of_either_case() {
    let hex = "BA7816BF8F01CFEA414140DE5DAE2223B00361A396177A9CB410FF61F20015AD";
    let read = mewt::types::hash::Hash::try_from(hex.to_string()).unwrap();
    assert_eq!(read, hash("abc"));
    assert_eq!(read.to_hex(), hex.to_lowercase());
    assert!(matches!(
        mewt::types::hash::Hash::try_from("xyz".to_string()),
        Err(HashError::InvalidHex(text)) if text == "xyz"
    ));
    assert!(matches!(
        mewt::types::hash::Hash::try_from("abc".to_string()),
        Err(HashError::InvalidHex(_))
    ));
    assert!(matches!(
        mewt::types::hash::Hash::try_from("0a0b0c".to_string()),
        Err(HashError::InvalidLength(3))
    ));
    assert!(matches!(
        mewt::types::hash::Hash::try_from("".to_string()),
        Err(HashError::InvalidLength(0))
    ));
}

#[test]
fn line_offset_counts_line_feeds_before_the_offset() {
    let source = "a\nbc\n\nd";
    assert_eq!(calculate_line_offset(source, 0), 0);
    assert_eq!(calculate_line_offset(source, 1), 0);
    assert_eq!(calculate_line_offset(source, 2), 1);
    assert_eq!(calculate_line_offset(source, 5), 2);
    assert_eq!(calculate_line_offset(source, 6), 3);
    assert_eq!(calculate_line_offset(source, 600), 3);
    assert_eq!(calculate_line_offset("", 3), 0);
}

fn target(text: &str) -> Target {
    Target {
        id: 3,
        path: "t.rs".to_string(),
        file_hash: hash(text),
        text: text.to_string(),
        language: "Rust".to_string(),
    }
}

fn mutant(target_id: i64, byte_offset: u32, old: &str, new: &str) -> Mutant {
    Mutant {
        id: 1,
        target_id,
        byte_offset,
        line_offset: 0,
        old_text: old.to_string(),
        new_text: new.to_string(),
        mutation_slug: "ER".to_string(),
    }
}

#[test]
fn a_mutant_is_spliced_into_the_text() {
    let t = target("let x = a + b;");
    assert_eq!(t.mutate(&mutant(3, 10, "+", "-")).unwrap(), "let x = a - b;");
    assert_eq!(t.mutate(&mutant(0, 0, "let", "")).unwrap(), " x = a + b;");
    assert_eq!(t.mutate(&mutant(3, 14, "", "// end")).unwrap(), "let x = a + b;// end");
    assert_eq!(t.mutate(&mutant(3, 0, "let x = a + b;", "")).unwrap(), "");
}

#[test]
fn a_mutant_of_another_target_is_refused() {
    let t = target("a + b");
    assert!(matches!(
        t.mutate(&mutant(4, 2, "+", "-")),
        Err(MutateError::WrongTarget { mutant_target: 4, target: 3 })
    ));
    // Whatever its span is.
    assert!(matches!(
        t.mutate(&mutant(4, 4000, "a text that is not there", "-")),
        Err(MutateError::WrongTarget { mutant_target: 4, target: 3 })
    ));
}

#[test]
fn a_mutant_that_cuts_a_character_is_refused() {
    let t = target("é = 1");
    assert!(matches!(t.mutate(&mutant(3, 1, "", "x")), Err(MutateError::InvalidText)));
    assert_eq!(t.mutate(&mutant(3, 0, "é", "e")).unwrap(), "e = 1");
}

#[test]
fn lines_of_a_mutant_start_at_one() {
    let mut m = mutant(1, 0, "a\nb\nc", "x");
    m.line_offset = 6;
    assert_eq!(m.get_lines(), (7, 9));
    assert!(m.matches_line(7) && m.matches_line(8) && m.matches_line(9));
    assert!(!m.matches_line(6) && !m.matches_line(10));
    m.old_text = "a".to_string();
    m.line_offset = 0;
    assert_eq!(m.get_lines(), (1, 1));
    m.line_offset = u32::MAX;
    m.old_text = "\n".to_string();
    assert_eq!(m.get_lines(), (u32::MAX, u32::MAX));
}

#[test]
fn a_partial_mutant_becomes_a_mutant() {
    let partial = PartialMutant {
        byte_offset: 4,
        line_offset: 2,
        old_text: "a".to_string(),
        new_text: "b".to_string(),
    };
    let m = Mutant::from_partial(partial, 9, "CR");
    assert_eq!((m.id, m.target_id, m.byte_offset, m.line_offset), (0, 9, 4, 2));
    assert_eq!((m.old_text.as_str(), m.new_text.as_str(), m.mutation_slug.as_str()), ("a", "b", "CR"));
    assert_eq!(m.display(&target("")), "[CR] t.rs:3 'a' -> 'b'");
}

#[test]
fn statuses_have_names() {
    for status in [Status::TestFail, Status::Uncaught, Status::Timeout, Status::Skipped, Status::BuildFail] {
        assert_eq!(Status::from_str(&status.to_string()), Some(status));
        assert_eq!(Status::from_str(&status.to_string().to_uppercase()), Some(status));
    }
    assert_eq!(Status::TestFail.to_string(), "TestFail");
    assert_eq!(Status::BuildFail.as_str(), "BuildFail");
    assert_eq!(Status::from_str("caught"), None);
    assert_eq!(Status::from_str("Uncaught "), None);
    assert!(Status::TestFail.is_eligible() && Status::Uncaught.is_eligible());
    assert!(!Status::Timeout.is_eligible() && !Status::Skipped.is_eligible() && !Status::BuildFail.is_eligible());
}

#[test]
fn severities_are_ranked() {
    assert!(MutationSeverity::High.outranks(MutationSeverity::Medium));
    assert!(MutationSeverity::Medium.outranks(MutationSeverity::Low));
    assert!(!MutationSeverity::Low.outranks(MutationSeverity::Low));
    assert!(!MutationSeverity::Medium.outranks(MutationSeverity::High));
    assert_eq!(MutationSeverity::High.to_string(), "High");
    assert_eq!(MutationSeverity::Medium.rank(), 1);
}

#[test]
fn times_are_read_and_written_in_rfc3339() {
    let time = Timestamp::parse_from_rfc3339("1970-01-01T00:00:01+00:00").unwrap();
    assert_eq!(time, Timestamp { secs: 1, nanos: 0 });
    let time = Timestamp::parse_from_rfc3339("2001-02-03T04:05:06.25-01:00").unwrap();
    assert_eq!(time, Timestamp { secs: 981176706, nanos: 250_000_000 });
    assert_eq!(time.to_rfc3339().unwrap(), "2001-02-03T05:05:06.250+00:00");
    assert_eq!(Timestamp { secs: 0, nanos: 0 }.to_rfc3339().unwrap(), "1970-01-01T00:00:00+00:00");
    assert_eq!(Timestamp::parse_from_rfc3339("2001-02-03 04:05"), None);
    assert_eq!(Timestamp { secs: i64::MAX, nanos: 0 }.to_rfc3339(), None);
}
