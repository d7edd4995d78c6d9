use gest::primitives::{Id, IterationStatus, Priority, TaskStatus, EntityType};

// ── Id: encode / decode ─────────────────────────────────────────────────

#[test]
fn it_encodes_ff_bytes_as_k() {
    let bytes = [0xFF; 16];
    assert_eq!(Id::encode(&bytes), "kkkkkkkkkkkkkkkkkkkkkkkkkkkkkkkk");
}

#[test]
fn it_encodes_zero_bytes_as_z() {
    let bytes = [0u8; 16];
    assert_eq!(Id::encode(&bytes), "zzzzzzzzzzzzzzzzzzzzzzzzzzzzzzzz");
}

#[test]
fn it_roundtrips_encode_decode() {
    let bytes = [
        0x01, 0x23, 0x45, 0x67, 0x89, 0xAB, 0xCD, 0xEF, 0x01, 0x23, 0x45, 0x67, 0x89, 0xAB, 0xCD, 0xEF,
    ];
    let encoded = Id::encode(&bytes);
    let decoded = Id::decode(&encoded).unwrap();
    assert_eq!(bytes, decoded);
}

#[test]
fn it_converts_to_text_value() {
    let id: Id = "zyxwvutsrqponmlkzyxwvutsrqponmlk".parse().unwrap();
    let value = id.to_string();
    assert_eq!(value, "zyxwvutsrqponmlkzyxwvutsrqponmlk".to_string());
}

// ── Id: from_str ────────────────────────────────────────────────────────

#[test]
fn it_parses_valid_id() {
    let id: Id = "zyxwvutsrqponmlkzyxwvutsrqponmlk".parse().unwrap();
    assert_eq!(id.to_string(), "zyxwvutsrqponmlkzyxwvutsrqponmlk");
}

#[test]
fn id_it_rejects_digits() {
    let result = "zzzzzzzzzzzzzzzzzzzzzzzzzzzzzzz1".parse::<Id>();
    assert!(result.is_err());
    assert!(Id::validate_prefix("kkkk1").is_err());
}

#[test]
fn it_rejects_out_of_range_chars() {
    let result = "zzzzzzzzzzzzzzzzzzzzzzzzzzzzzzja".parse::<Id>();
    assert!(result.is_err());
}

#[test]
fn id_it_rejects_too_long() {
    let result = "zzzzzzzzzzzzzzzzzzzzzzzzzzzzzzzzz".parse::<Id>();
    assert!(result.is_err());
    let long = "k".repeat(33);
    assert!(Id::validate_prefix(&long).is_err());
}

#[test]
fn it_rejects_too_short() {
    let result = "zzz".parse::<Id>();
    assert!(result.is_err());
}

#[test]
fn it_generates_valid_ids() {
    let id = Id::new();
    let s = id.to_string();
    assert_eq!(s.len(), 32);
    assert!(s.chars().all(|c| ('k'..='z').contains(&c)));
}

// ── Id: validate_prefix ─────────────────────────────────────────────────

#[test]
fn it_accepts_full_id() {
    assert!(Id::validate_prefix("zyxwvutsrqponmlkzyxwvutsrqponmlk").is_ok());
}

#[test]
fn it_accepts_short_prefix() {
    assert_eq!(Id::validate_prefix("zyxw").unwrap(), "zyxw");
}

#[test]
fn it_accepts_single_char() {
    assert!(Id::validate_prefix("k").is_ok());
}

#[test]
fn it_rejects_chars_below_range() {
    assert!(Id::validate_prefix("kkkj").is_err());
}

#[test]
fn it_rejects_dots() {
    assert!(Id::validate_prefix("..").is_err());
}

#[test]
fn it_rejects_empty() {
    assert!(Id::validate_prefix("").is_err());
}

#[test]
fn it_rejects_path_separator() {
    assert!(Id::validate_prefix("../etc").is_err());
}

#[test]
fn it_rejects_uppercase() {
    assert!(Id::validate_prefix("kkkK").is_err());
}

// ── Id: display, round trip, short ──────────────────────────────────────

#[test]
fn it_encodes_all_ff_bytes_as_all_k() {
    let id = Id([0xFF; 16]);
    assert_eq!(id.to_string(), "kkkkkkkkkkkkkkkkkkkkkkkkkkkkkkkk");
}

#[test]
fn it_formats_as_the_encoded_string() {
    let id: Id = "zzzzzzzzzzzzzzzzzzzzzzzzzzzzzzzz".parse().unwrap();
    assert_eq!(id.to_string(), "zzzzzzzzzzzzzzzzzzzzzzzzzzzzzzzz");
}

#[test]
fn it_roundtrips_through_string() {
    let id = Id::new();
    let s = id.to_string();
    let parsed: Id = s.parse().unwrap();
    assert_eq!(id, parsed);
}

#[test]
fn it_returns_first_eight_characters() {
    let id: Id = "zyxwvutsrqponmlkzyxwvutsrqponmlk".parse().unwrap();
    assert_eq!(id.short(), "zyxwvuts");
}

#[test]
fn id_errors_name_the_problem() {
    assert_eq!(
        "zzz".parse::<Id>().unwrap_err(),
        "Id must be exactly 32 characters, got 3"
    );
    assert_eq!(
        Id::encode_prefix(&[0x01, 0x23, 0, 0, 0, 0, 0, 0, 0, 0, 0, 0, 0, 0, 0, 0]),
        "zyxwzzzz"
    );
    let id = Id::default();
    assert_eq!(id.to_string().len(), 32);
}

#[test]
fn id_decode_inverts_encode_on_every_byte() {
    let mut bytes = [0u8; 16];
    for start in (0..256usize).step_by(16) {
        for (k, b) in bytes.iter_mut().enumerate() {
            *b = (start + k) as u8;
        }
        let text = Id::encode(&bytes);
        assert_eq!(Id::decode(&text).unwrap(), bytes);
    }
}

// ── IterationStatus ─────────────────────────────────────────────────────

#[test]
fn it_formats_active() {
    assert_eq!(IterationStatus::Active.to_string(), "active");
}

#[test]
fn it_formats_cancelled() {
    assert_eq!(IterationStatus::Cancelled.to_string(), "cancelled");
}

#[test]
fn it_formats_completed() {
    assert_eq!(IterationStatus::Completed.to_string(), "completed");
}

#[test]
fn it_returns_false_for_active() {
    assert!(!IterationStatus::Active.is_terminal());
}

#[test]
fn it_returns_true_for_cancelled() {
    assert!(IterationStatus::Cancelled.is_terminal());
}

#[test]
fn it_returns_true_for_completed() {
    assert!(IterationStatus::Completed.is_terminal());
}

#[test]
fn iteration_status_round_trips_through_its_name() {
    for s in [IterationStatus::Active, IterationStatus::Cancelled, IterationStatus::Completed] {
        assert_eq!(s.to_string().parse::<IterationStatus>().unwrap(), s);
    }
    assert_eq!("ACTIVE".parse::<IterationStatus>().unwrap(), IterationStatus::Active);
    assert!("paused".parse::<IterationStatus>().is_err());
    assert_eq!(IterationStatus::default(), IterationStatus::Active);
}

// ── Priority ────────────────────────────────────────────────────────────

#[test]
fn it_contains_every_variant_in_rank_order() {
    assert_eq!(
        Priority::all(),
        vec![Priority::Critical, Priority::High, Priority::Medium, Priority::Low, Priority::Lowest]
    );
}

#[test]
fn it_formats_critical() {
    assert_eq!(Priority::Critical.to_string(), "critical");
}

#[test]
fn it_formats_high() {
    assert_eq!(Priority::High.to_string(), "high");
}

#[test]
fn it_formats_low() {
    assert_eq!(Priority::Low.to_string(), "low");
}

#[test]
fn it_formats_lowest() {
    assert_eq!(Priority::Lowest.to_string(), "lowest");
}

#[test]
fn it_formats_medium() {
    assert_eq!(Priority::Medium.to_string(), "medium");
}

#[test]
fn it_parses_each_label() {
    assert_eq!("critical".parse::<Priority>().unwrap(), Priority::Critical);
    assert_eq!("high".parse::<Priority>().unwrap(), Priority::High);
    assert_eq!("medium".parse::<Priority>().unwrap(), Priority::Medium);
    assert_eq!("low".parse::<Priority>().unwrap(), Priority::Low);
    assert_eq!("lowest".parse::<Priority>().unwrap(), Priority::Lowest);
}

#[test]
fn it_parses_case_insensitively() {
    assert_eq!("CRITICAL".parse::<Priority>().unwrap(), Priority::Critical);
    assert_eq!("Critical".parse::<Priority>().unwrap(), Priority::Critical);
    assert_eq!("critical".parse::<Priority>().unwrap(), Priority::Critical);
}

#[test]
fn it_rejects_an_empty_string() {
    assert!("".parse::<Priority>().is_err());
}

#[test]
fn it_rejects_unknown_labels() {
    let err = "urgent".parse::<Priority>().unwrap_err();
    assert!(err.contains("urgent"));
}

#[test]
fn it_round_trips_through_string() {
    for priority in Priority::all() {
        let rendered = priority.to_string();
        assert_eq!(rendered.parse::<Priority>().unwrap(), priority);
    }
}

#[test]
fn it_accepts_values_in_range() {
    assert_eq!(Priority::try_from(0u8).unwrap(), Priority::Critical);
    assert_eq!(Priority::try_from(1u8).unwrap(), Priority::High);
    assert_eq!(Priority::try_from(2u8).unwrap(), Priority::Medium);
    assert_eq!(Priority::try_from(3u8).unwrap(), Priority::Low);
    assert_eq!(Priority::try_from(4u8).unwrap(), Priority::Lowest);
}

#[test]
fn it_rejects_the_max_u8() {
    assert!(Priority::try_from(255u8).is_err());
}

#[test]
fn it_rejects_values_just_out_of_range() {
    assert!(Priority::try_from(5u8).is_err());
}

#[test]
fn it_round_trips_through_u8() {
    for priority in Priority::all() {
        let byte: u8 = priority.into();
        assert_eq!(Priority::try_from(byte).unwrap(), priority);
    }
}

#[test]
fn priority_orders_by_rank() {
    assert!(Priority::Critical < Priority::High);
    assert_eq!(Priority::Lowest.rank(), 4);
}

// ── TaskStatus and EntityType ───────────────────────────────────────────

#[test]
fn task_status_names_and_terminality() {
    assert_eq!(TaskStatus::InProgress.as_str(), "in-progress");
    assert_eq!(TaskStatus::Open.as_str(), "open");
    assert!(TaskStatus::Done.is_terminal());
    assert!(TaskStatus::Cancelled.is_terminal());
    assert!(!TaskStatus::Open.is_terminal());
    assert!(!TaskStatus::InProgress.is_terminal());
}

#[test]
fn entity_type_names() {
    assert_eq!(EntityType::Artifact.as_str(), "artifact");
    assert_eq!(EntityType::Iteration.as_str(), "iteration");
    assert_eq!(EntityType::Task.as_str(), "task");
}

#[test]
fn short_ids_are_valid_prefixes() {
    let id = Id::new();
    let short = id.short();
    assert_eq!(short.len(), 8);
    assert!(id.to_string().starts_with(&short));
    assert_eq!(Id::validate_prefix(&short), Ok(short.as_str()));
    let full = id.to_string();
    assert_eq!(Id::validate_prefix(&full), Ok(full.as_str()));
}

#[test]
fn encoding_sorts_in_reverse_byte_order() {
    let mut low = [0u8; 16];
    let mut high = [0u8; 16];
    low[5] = 0x10;
    high[5] = 0x11;
    assert!(Id::encode(&high) < Id::encode(&low));
    high[5] = 0x20;
    assert!(Id::encode(&high) < Id::encode(&low));
    assert!(Id::encode(&[0xFF; 16]) < Id::encode(&[0u8; 16]));
}
