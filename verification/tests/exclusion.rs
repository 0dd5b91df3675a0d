use wlscsr::exclusion::{
    ascii_space, contains_name, head_is_ignored, ignored_head_names, lid_closed, partition_heads,
    select_heads, LidIndicator,
};
use wlscsr::fingerprint::fingerprint;
use wlscsr::reconcile::reconcile;
use wlscsr::store::snapshot_records;
use wlscsr::types::{Head, HeadConfig};

fn geometry(width: i32) -> HeadConfig {
    HeadConfig {
        width,
        height: 1080,
        refresh_rate: "60".to_string(),
        x: 0,
        y: 0,
        scale: "1".to_string(),
        transform: 0,
        vrr: false,
    }
}

fn head(name: Option<&str>, make: &str, config: Option<HeadConfig>) -> Head {
    Head {
        name: name.map(|n| n.to_string()),
        make: make.to_string(),
        model: "M".to_string(),
        serial: String::new(),
        config,
    }
}

fn indicator(head: &str, contents: Option<&[u8]>) -> LidIndicator {
    LidIndicator { head: head.to_string(), contents: contents.map(|c| c.to_vec()) }
}

#[test]
fn lid_closed_reads_the_trailing_word() {
    assert!(lid_closed(b"closed"));
    assert!(lid_closed(b"closed\n"));
    assert!(lid_closed(b"state:      closed\n"));
    assert!(lid_closed(b"...closed\n"));
    assert!(lid_closed(b"closed \t\r\n\x0c"));
    assert!(lid_closed(b"  closed"));
    assert!(lid_closed(b"\n closed \n"));
    assert!(lid_closed(b"openclosed"));
}

#[test]
fn lid_closed_refuses_everything_else() {
    assert!(!lid_closed(b""));
    assert!(!lid_closed(b"\n"));
    assert!(!lid_closed(b"   \t "));
    assert!(!lid_closed(b"state:      open\n"));
    assert!(!lid_closed(b"closed."));
    assert!(!lid_closed(b"closedx\n"));
    assert!(!lid_closed(b"close"));
    assert!(!lid_closed(b"losed"));
    assert!(!lid_closed(b"Closed"));
    assert!(!lid_closed(b"CLOSED\n"));
    assert!(!lid_closed(b"clo sed"));
    assert!(!lid_closed(b"closed\0"));
    assert!(!lid_closed(b"closed\x0b"));
}

#[test]
fn lid_closed_agrees_with_trim_and_ends_with() {
    let samples: [&[u8]; 10] = [
        b"",
        b" ",
        b"closed",
        b" closed ",
        b"xclosed\n\n",
        b"closed\nopen\n",
        b"open\nclosed\n",
        b"\x0cclosed\x0c",
        b"clo\nsed",
        b"closed\xc2\xa0",
    ];
    for s in samples {
        assert_eq!(lid_closed(s), s.trim_ascii().ends_with(b"closed"), "{:?}", s);
    }
}

#[test]
fn ascii_space_is_the_five_bytes() {
    for b in 0u8..=255 {
        assert_eq!(ascii_space(b), b.is_ascii_whitespace(), "{}", b);
    }
}

#[test]
fn unreadable_indicator_excludes_nothing() {
    let indicators = [
        indicator("eDP-1", None),
        indicator("eDP-2", Some(b"state: closed\n")),
        indicator("eDP-3", Some(b"state: open\n")),
        indicator("eDP-4", Some(b"closed")),
    ];
    assert!(!indicators[0].is_closed());
    assert!(indicators[1].is_closed());
    assert_eq!(ignored_head_names(&indicators), vec!["eDP-2".to_string(), "eDP-4".to_string()]);
    assert_eq!(ignored_head_names(&[]), Vec::<String>::new());
}

#[test]
fn contains_name_compares_whole_names() {
    let names = ["eDP-1".to_string(), "DP-2".to_string()];
    assert!(contains_name(&names, "eDP-1"));
    assert!(contains_name(&names, "DP-2"));
    assert!(!contains_name(&names, "DP-1"));
    assert!(!contains_name(&names, "eDP-10"));
    assert!(!contains_name(&names, ""));
    assert!(!contains_name(&[], "eDP-1"));
}

#[test]
fn display_without_name_is_never_ignored() {
    let names = ["".to_string(), "eDP-1".to_string()];
    assert!(!head_is_ignored(&head(None, "A", None), &names));
    assert!(head_is_ignored(&head(Some(""), "A", None), &names));
    assert!(head_is_ignored(&head(Some("eDP-1"), "A", None), &names));
    assert!(!head_is_ignored(&head(Some("DP-1"), "A", None), &names));
}

#[test]
fn partition_keeps_the_order_of_enumeration() {
    let all = [
        head(Some("DP-3"), "C", None),
        head(Some("eDP-1"), "L", Some(geometry(1366))),
        head(Some("DP-1"), "A", None),
        head(Some("eDP-2"), "K", None),
        head(None, "B", None),
    ];
    let excluded = ["eDP-2".to_string(), "eDP-1".to_string(), "HDMI-A-1".to_string()];
    let (active, ignored) = partition_heads(&all, &excluded);
    assert_eq!(active, vec![all[0].clone(), all[2].clone(), all[4].clone()]);
    assert_eq!(ignored, vec![all[1].clone(), all[3].clone()]);
}

#[test]
fn partition_without_exclusions_keeps_everything_active() {
    let all = [head(Some("DP-3"), "C", None), head(Some("DP-1"), "A", None)];
    let (active, ignored) = partition_heads(&all, &[]);
    assert_eq!(active, all.to_vec());
    assert!(ignored.is_empty());
}

#[test]
fn select_heads_sorts_the_active_displays() {
    let all = [
        head(Some("DP-3"), "C", None),
        head(Some("eDP-1"), "L", None),
        head(Some("DP-1"), "A", None),
        head(Some("eDP-2"), "K", None),
        head(Some("DP-2"), "B", None),
    ];
    let excluded = ["eDP-1".to_string(), "eDP-2".to_string()];
    let (active, ignored) = select_heads(&all, &excluded);
    assert_eq!(active, vec![all[2].clone(), all[4].clone(), all[0].clone()]);
    assert_eq!(ignored, vec![all[1].clone(), all[3].clone()]);
}

#[test]
fn closed_lid_takes_the_display_out_of_the_run() {
    let indicators = [indicator("eDP-1", Some(b"state:      closed\n"))];
    let excluded = ignored_head_names(&indicators);
    assert_eq!(excluded, vec!["eDP-1".to_string()]);

    let enumerated = [
        head(Some("eDP-1"), "Laptop", Some(geometry(1366))),
        head(Some("DP-1"), "Desk", Some(geometry(2560))),
    ];
    let (active, ignored) = select_heads(&enumerated, &excluded);
    assert_eq!(active, vec![enumerated[1].clone()]);
    assert_eq!(ignored, vec![enumerated[0].clone()]);

    // The fingerprint is that of the desk display alone.
    assert_eq!(fingerprint(&active), fingerprint(&[head(None, "Desk", None)]));
    assert_ne!(fingerprint(&active), fingerprint(&enumerated));

    // The snapshot does not hold the laptop panel.
    let snapshot = snapshot_records(&active);
    assert_eq!(snapshot, vec![head(None, "Desk", Some(geometry(2560)))]);

    // On restore the panel is switched off, whatever it was doing.
    let restored = reconcile(&active, &ignored, snapshot).unwrap();
    assert_eq!(
        restored,
        vec![head(Some("DP-1"), "Desk", Some(geometry(2560))), head(Some("eDP-1"), "Laptop", None)]
    );
}

#[test]
fn open_lid_keeps_the_display_in_the_run() {
    let indicators = [indicator("eDP-1", Some(b"state:      open\n"))];
    let excluded = ignored_head_names(&indicators);
    let enumerated =
        [head(Some("eDP-1"), "Laptop", Some(geometry(1366))), head(Some("DP-1"), "Desk", None)];
    let (active, ignored) = select_heads(&enumerated, &excluded);
    assert_eq!(active, vec![enumerated[1].clone(), enumerated[0].clone()]);
    assert!(ignored.is_empty());
}
