use wlscsr::fingerprint::{fingerprint, fingerprint_message, hash_heads, snapshot_file_name};
use wlscsr::types::{Head, HeadConfig};

fn head(name: Option<&str>, make: &str, model: &str, serial: &str) -> Head {
    Head {
        name: name.map(|n| n.to_string()),
        make: make.to_string(),
        model: model.to_string(),
        serial: serial.to_string(),
        config: None,
    }
}

fn hex(bytes: &[u8]) -> String {
    let mut out = String::new();
    for b in bytes {
        out.push_str(&format!("{:02x}", b));
    }
    out
}

#[test]
fn message_of_no_display_is_the_count_alone() {
    assert_eq!(fingerprint_message(&[]), vec![0u8; 8]);
}

#[test]
fn message_prefixes_every_field_with_its_length() {
    let heads = [head(Some("DP-1"), "A", "B", "1")];
    let expected: Vec<u8> = vec![
        1, 0, 0, 0, 0, 0, 0, 0, // one display
        1, 0, 0, 0, 0, 0, 0, 0, 0x41, // make
        1, 0, 0, 0, 0, 0, 0, 0, 0x42, // model
        1, 0, 0, 0, 0, 0, 0, 0, 0x31, // serial
    ];
    assert_eq!(fingerprint_message(&heads), expected);
}

#[test]
fn message_counts_bytes_not_characters() {
    let heads = [head(None, "é", "", "")];
    let expected: Vec<u8> = vec![
        1, 0, 0, 0, 0, 0, 0, 0, //
        2, 0, 0, 0, 0, 0, 0, 0, 0xc3, 0xa9, //
        0, 0, 0, 0, 0, 0, 0, 0, //
        0, 0, 0, 0, 0, 0, 0, 0,
    ];
    assert_eq!(fingerprint_message(&heads), expected);
}

#[test]
fn message_writes_long_lengths_low_byte_first() {
    let long = "x".repeat(258);
    let heads = [head(None, &long, "", "")];
    let message = fingerprint_message(&heads);
    assert_eq!(&message[8..16], &[2, 1, 0, 0, 0, 0, 0, 0]);
    assert_eq!(message.len(), 8 + 8 + 258 + 8 + 8);
}

#[test]
fn hash_heads_is_the_sha256_of_the_message() {
    assert_eq!(
        hex(&hash_heads(&[])),
        "af5570f5a1810b7af78caf4bc70a660f0df51e42baf91d4de5b2328de0e83dfc"
    );
    assert_eq!(
        hex(&hash_heads(&[head(None, "A", "B", "1")])),
        "8857866d305d6c9c747f43401201916db253082e54dfc1be881ce7dc36d5513b"
    );
    assert_eq!(
        hex(&hash_heads(&[head(None, "A", "B", "1"), head(None, "C", "D", "2")])),
        "1fe4f4c35d238fca9f7fcd2081cb8a2ec57f64099d5ce7636a10ce0ea66b46ad"
    );
    assert_eq!(
        hex(&hash_heads(&[
            head(None, "Dell Inc.", "DELL U2720Q", "7RNT123"),
            head(None, "Samsung Electric Company", "é", "")
        ])),
        "82a3bdcb34a162a092e7c5178d0ded02af07be547c32532cfc48351f302fd8fd"
    );
}

#[test]
fn hash_heads_goes_by_the_order_given() {
    let ab = [head(None, "A", "B", "1"), head(None, "C", "D", "2")];
    let ba = [head(None, "C", "D", "2"), head(None, "A", "B", "1")];
    assert_ne!(hash_heads(&ab), hash_heads(&ba));
    assert_eq!(hash_heads(&ab), fingerprint(&ab));
    assert_eq!(fingerprint(&ba), fingerprint(&ab));
}

#[test]
fn fingerprint_is_the_same_for_every_order() {
    let a = head(Some("DP-1"), "A", "B", "1");
    let b = head(Some("DP-2"), "C", "D", "2");
    let c = head(Some("DP-3"), "A", "B", "0");
    let orders: [[&Head; 3]; 6] =
        [[&a, &b, &c], [&a, &c, &b], [&b, &a, &c], [&b, &c, &a], [&c, &a, &b], [&c, &b, &a]];
    let expected = fingerprint(&[c.clone(), a.clone(), b.clone()]);
    for order in orders {
        let heads: Vec<Head> = order.iter().map(|h| (*h).clone()).collect();
        assert_eq!(fingerprint(&heads), expected);
    }
}

#[test]
fn fingerprint_ignores_names_and_geometry() {
    let plain = [head(Some("DP-1"), "A", "B", "1"), head(Some("DP-2"), "C", "D", "2")];
    let mut other = [head(Some("HDMI-A-1"), "C", "D", "2"), head(None, "A", "B", "1")];
    other[0].config = Some(HeadConfig {
        width: 1920,
        height: 1080,
        refresh_rate: "59.951".to_string(),
        x: -1920,
        y: 0,
        scale: "1.5".to_string(),
        transform: 3,
        vrr: true,
    });
    assert_eq!(fingerprint(&plain), fingerprint(&other));
    assert_eq!(
        hex(&fingerprint(&other)),
        "1fe4f4c35d238fca9f7fcd2081cb8a2ec57f64099d5ce7636a10ce0ea66b46ad"
    );
}

#[test]
fn fingerprint_tells_adjacent_fields_apart() {
    let left = [head(None, "AB", "C", "")];
    let right = [head(None, "A", "BC", "")];
    assert_ne!(fingerprint_message(&left), fingerprint_message(&right));
    assert_ne!(fingerprint(&left), fingerprint(&right));
    assert_eq!(
        hex(&fingerprint(&left)),
        "dfe2a2fa54d8ecdecee9bb198fb63e19f7d40989a0b4393a489a8a94df1885d3"
    );
    assert_eq!(
        hex(&fingerprint(&right)),
        "be91b847037f0265692634e771cad63e87a5fbfa2a609c991b6d9c046fa0c1fd"
    );
}

#[test]
fn fingerprint_changes_with_any_field() {
    let base = fingerprint(&[head(None, "A", "B", "1"), head(None, "C", "D", "2")]);
    let make = fingerprint(&[head(None, "A", "B", "1"), head(None, "X", "D", "2")]);
    let model = fingerprint(&[head(None, "A", "B", "1"), head(None, "C", "X", "2")]);
    let serial = fingerprint(&[head(None, "A", "B", "1"), head(None, "C", "D", "3")]);
    assert_ne!(base, make);
    assert_ne!(base, model);
    assert_ne!(base, serial);
    assert_ne!(make, model);
    assert_ne!(model, serial);
}

#[test]
fn fingerprint_changes_when_a_display_comes_or_goes() {
    let two = fingerprint(&[head(None, "A", "B", "1"), head(None, "C", "D", "2")]);
    let one = fingerprint(&[head(None, "A", "B", "1")]);
    let three = fingerprint(&[
        head(None, "A", "B", "1"),
        head(None, "C", "D", "2"),
        head(None, "", "", ""),
    ]);
    let twice = fingerprint(&[head(None, "A", "B", "1"), head(None, "A", "B", "1")]);
    assert_ne!(two, one);
    assert_ne!(two, three);
    assert_ne!(one, twice);
}

#[test]
fn snapshot_file_name_is_lower_case_hex_and_json() {
    let mut digest = [0u8; 32];
    for (i, b) in digest.iter_mut().enumerate() {
        *b = (i as u8) * 8 + 7;
    }
    assert_eq!(
        snapshot_file_name(&digest),
        "070f171f272f373f474f575f676f777f878f979fa7afb7bfc7cfd7dfe7eff7ff.json"
    );
    assert_eq!(
        snapshot_file_name(&[0u8; 32]),
        "0000000000000000000000000000000000000000000000000000000000000000.json"
    );
}

#[test]
fn snapshot_file_name_of_a_fingerprint() {
    let digest = fingerprint(&[head(Some("DP-1"), "A", "B", "1")]);
    assert_eq!(
        snapshot_file_name(&digest),
        "8857866d305d6c9c747f43401201916db253082e54dfc1be881ce7dc36d5513b.json"
    );
}
