use slipcase_desktop::actions::Ask;
use slipcase_desktop::potext::Catalog;
use slipcase_desktop::Payload;

fn sized(size: u64) -> Payload {
    Payload {
        name: "report.pdf".to_owned(),
        size,
        opens_with: None,
        executable: false,
        unreadable: None,
    }
}

fn payload(unreadable: Option<&str>) -> Payload {
    Payload {
        name: "report.pdf".to_owned(),
        size: 7,
        opens_with: None,
        executable: false,
        unreadable: unreadable.map(ToOwned::to_owned),
    }
}

#[test]
fn a_zero_length_payload_states_its_size() {
    assert_eq!(sized(0).size_line(None), "0 bytes");
}

#[test]
fn one_byte_is_not_one_bytes() {
    assert_eq!(sized(1).size_line(None), "1 byte");
}

#[test]
fn small_sizes_are_bytes_alone() {
    assert_eq!(sized(1023).size_line(None), "1023 bytes");
}

#[test]
fn large_sizes_keep_their_exact_count() {
    assert_eq!(sized(1024).size_line(None), "1.0 KiB (1024 bytes)");
    assert_eq!(sized(1_536).size_line(None), "1.5 KiB (1536 bytes)");
    assert_eq!(sized(5_242_880).size_line(None), "5.0 MiB (5242880 bytes)");
    assert_eq!(
        sized(3_221_225_472).size_line(None),
        "3.0 GiB (3221225472 bytes)"
    );
}

/// What the card printed when it divided a double, worked out here the same
/// way, to hold the integer arithmetic to it.
fn as_a_double_prints(n: u64) -> String {
    let units = ["KiB", "MiB", "GiB", "TiB", "PiB"];
    let mut scaled = n as f64 / 1024.0;
    let mut unit = units[0];
    for next in &units[1..] {
        if scaled < 1024.0 {
            break;
        }
        scaled /= 1024.0;
        unit = next;
    }
    format!("{scaled:.1} {unit} ({n} bytes)")
}

#[test]
fn the_scaled_size_is_what_a_double_prints() {
    let mut cases: Vec<u64> = vec![
        1024,
        1025,
        1075,
        1076,
        1126,
        1127,
        1280,
        1331,
        1332,
        1_048_575,
        1_048_576,
        1_048_577,
        1_073_741_823,
        1_073_741_824,
        1_099_511_627_775,
        1_099_511_627_776,
        1_125_899_906_842_623,
        1_125_899_906_842_624,
        1_152_921_504_606_846_975,
        1_152_921_504_606_846_976,
        (1u64 << 53) - 1,
        1u64 << 53,
        (1u64 << 53) + 1,
        (1u64 << 53) + 3,
        (1u64 << 60) - 1,
        u64::MAX - 1,
        u64::MAX,
    ];
    // Every tie a tenth can fall on at the first scale, and its neighbours.
    for tenth in 10u64..10_240 {
        let tie = tenth * 1024 / 10;
        for n in [tie.saturating_sub(1), tie, tie + 1] {
            if n >= 1024 {
                cases.push(n);
            }
        }
    }
    let mut x: u64 = 0x9E37_79B9_7F4A_7C15;
    for _ in 0..20_000 {
        x ^= x << 13;
        x ^= x >> 7;
        x ^= x << 17;
        let bits = (x % 64) as u32;
        let n = if bits == 0 { x } else { x >> bits };
        if n >= 1024 {
            cases.push(n);
        }
    }
    for n in cases {
        assert_eq!(sized(n).size_line(None), as_a_double_prints(n), "{n}");
    }
}

#[test]
fn a_tie_rounds_to_the_even_tenth() {
    // 1280 bytes are exactly 1.25 KiB.
    assert_eq!(sized(1280).size_line(None), "1.2 KiB (1280 bytes)");
    // 1.75 KiB.
    assert_eq!(sized(1792).size_line(None), "1.8 KiB (1792 bytes)");
}

#[test]
fn the_largest_count_is_stated_in_pebibytes() {
    assert_eq!(
        sized(u64::MAX).size_line(None),
        "16384.0 PiB (18446744073709551615 bytes)"
    );
}

#[test]
fn the_size_line_reads_in_the_language_in_force() {
    let german = Catalog::parse(
        "msgid \"\"\nmsgstr \"\"\n\"Plural-Forms: nplurals=2; plural=(n != 1);\\n\"\n\n\
         msgid \"{n} byte\"\nmsgid_plural \"{n} bytes\"\nmsgstr[0] \"{n} Byte\"\nmsgstr[1] \"{n} Bytes\"\n\n\
         msgid \"{size} {unit} ({n} bytes)\"\nmsgstr \"{size} {unit} ({n} Bytes)\"\n",
    );
    assert_eq!(sized(1).size_line(Some(&german)), "1 Byte");
    assert_eq!(sized(2).size_line(Some(&german)), "2 Bytes");
    assert_eq!(
        sized(1024).size_line(Some(&german)),
        "1.0 KiB (1024 Bytes)"
    );
}

#[test]
fn a_payload_without_a_reason_can_be_decoded() {
    assert!(payload(None).can_be_decoded());
    assert!(!payload(Some("the member is encrypted (SPEC 2.5)")).can_be_decoded());
}

#[test]
fn everything_is_offered_for_a_payload_that_can_be_read() {
    let payload = payload(None);
    for ask in [Ask::Open, Ask::Extract, Ask::Replace] {
        assert!(ask.offered(&payload, false));
    }
}

#[test]
fn only_replacing_is_offered_for_a_payload_that_cannot_be_read() {
    let payload = payload(Some("the member is encrypted (SPEC 2.5)"));

    assert!(!Ask::Open.offered(&payload, false), "nothing to hand over");
    assert!(!Ask::Extract.offered(&payload, false), "nothing to write out");
    assert!(
        Ask::Replace.offered(&payload, false),
        "writing over a member does not read it"
    );
}

#[test]
fn nothing_is_offered_while_a_dialog_is_up() {
    for unreadable in [None, Some("the member is encrypted (SPEC 2.5)")] {
        let payload = payload(unreadable);
        for ask in [Ask::Open, Ask::Extract, Ask::Replace] {
            assert!(!ask.offered(&payload, true));
        }
    }
}

#[test]
fn only_opening_and_extracting_decode() {
    assert!(Ask::Open.decodes());
    assert!(Ask::Extract.decodes());
    assert!(!Ask::Replace.decodes());
    assert!(!Ask::Undo.decodes());
}

#[test]
fn only_the_open_button_takes_the_owed_focus() {
    assert!(Ask::Open.takes_focus(true, true));
    assert!(!Ask::Open.takes_focus(false, true));
    assert!(!Ask::Open.takes_focus(true, false));
    assert!(!Ask::Extract.takes_focus(true, true));
    assert!(!Ask::Replace.takes_focus(true, true));
}
