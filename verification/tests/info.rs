use wlscsr::info::info_report;
use wlscsr::types::Head;

fn head(name: Option<&str>, make: &str, model: &str, serial: &str) -> Head {
    Head {
        name: name.map(|n| n.to_string()),
        make: make.to_string(),
        model: model.to_string(),
        serial: serial.to_string(),
        config: None,
    }
}

#[test]
fn info_report_lists_active_then_ignored() {
    let active = [head(Some("DP-1"), "A", "B", "1"), head(None, "C", "D", "")];
    let ignored = [head(Some("eDP-1"), "L", "M", "7")];
    assert_eq!(
        info_report(&active, &ignored, "/state/wlscsr/ab.json"),
        "3 connected heads:\n\
         * DP-1\n  Make: A\n  Model: B\n  Serial: 1\n\
         * \n  Make: C\n  Model: D\n  Serial: \n\
         * eDP-1 [ignored]\n  Make: L\n  Model: M\n  Serial: 7\n\
         Configuration path: /state/wlscsr/ab.json\n"
    );
}

#[test]
fn info_report_of_nothing() {
    assert_eq!(info_report(&[], &[], ""), "0 connected heads:\nConfiguration path: \n");
}

#[test]
fn info_report_counts_in_decimal() {
    let many: Vec<Head> = (0..12).map(|_| head(None, "", "", "")).collect();
    let report = info_report(&many, &many[..1], "p");
    assert!(report.starts_with("13 connected heads:\n* \n  Make: \n"));
    assert!(report
        .ends_with("*  [ignored]\n  Make: \n  Model: \n  Serial: \nConfiguration path: p\n"));
}
