use sd2_telem::data::Buff;
use sd2_telem::loader::{split_char, truncate_val, try_parse_u32, Loader};

fn lines(raw: &[&str]) -> Vec<String> {
    raw.iter().map(|s| s.to_string()).collect()
}

#[test]
fn split_char_keeps_every_piece() {
    let pieces = split_char("a,bc,,d", ',');
    assert_eq!(pieces, vec!["a", "bc", "", "d"]);
    assert_eq!(split_char("", ','), vec![""]);
    assert_eq!(split_char("xyz", ','), vec!["xyz"]);
    assert_eq!(split_char("tag:250:ref:extra", ':'), vec!["tag", "250", "ref", "extra"]);
}

#[test]
fn try_parse_u32_accepts_exactly_the_digit_strings_in_range() {
    assert_eq!(try_parse_u32("0"), Some(0));
    assert_eq!(try_parse_u32("4294967295"), Some(u32::MAX));
    assert_eq!(try_parse_u32("4294967296"), None);
    assert_eq!(try_parse_u32(""), None);
    assert_eq!(try_parse_u32("12a"), None);
    assert_eq!(try_parse_u32("-3"), None);
}

#[test]
fn truncate_val_reads_the_integer_part() {
    assert_eq!(truncate_val("123.456"), 123);
    assert_eq!(truncate_val("77"), 77);
    assert_eq!(truncate_val("0.0"), 0);
}

#[test]
fn loader_reads_channels_from_a_run() {
    let mut loader = Loader::new();
    let ok = loader.load_from_lines(&lines(&[
        "RS:250:rear,FS:250:front",
        "0.0,0.0,0.0,0.0,0.0,0.0,12.5,34",
        "0.0,0.0,0.0,0.0,0.0,0.0,900.1,901.9",
    ]));
    assert!(ok);
    assert_eq!(loader.raw_pot_datas.len(), 2);

    let rs = loader.get_raw_pot_data("RS".to_string());
    assert_eq!(rs.remap_ref, "rear");
    assert_eq!(rs.polling_rate, 250);
    assert_eq!(rs.data, vec![12, 900]);

    let fs = loader.get_raw_pot_data("FS".to_string());
    assert_eq!(fs.remap_ref, "front");
    assert_eq!(fs.polling_rate, 250);
    assert_eq!(fs.data, vec![34, 901]);
}

#[test]
fn loader_allows_short_rows() {
    let mut loader = Loader::new();
    let ok = loader.load_from_lines(&lines(&[
        "RS:250:rear,FS:250:front",
        "0.0,0.0,0.0,0.0,0.0,0.0,12.5",
        "0.0,0.0,0.0,0.0,0.0,0.0,13.5,99",
    ]));
    assert!(ok);
    assert_eq!(loader.get_raw_pot_data("RS".to_string()).data, vec![12, 13]);
    assert_eq!(loader.get_raw_pot_data("FS".to_string()).data, vec![99]);
}

#[test]
fn loader_rejects_malformed_runs_and_keeps_its_state() {
    let mut loader = Loader::new();
    assert!(loader.load_from_lines(&lines(&["RS:250:rear", "0,0,0,0,0,0,5"])));
    let before_len = loader.raw_pot_datas.len();

    // Non-numeric polling rate.
    assert!(!loader.load_from_lines(&lines(&["RS:fast:rear"])));
    // Too few metadata fields.
    assert!(!loader.load_from_lines(&lines(&["RS:250"])));
    // Duplicate channel tags.
    assert!(!loader.load_from_lines(&lines(&["RS:250:a,RS:250:b"])));
    // A row with more cells than channels.
    assert!(!loader.load_from_lines(&lines(&["RS:250:rear", "0,0,0,0,0,0,1,2"])));
    // An unreadable sample cell.
    assert!(!loader.load_from_lines(&lines(&["RS:250:rear", "0,0,0,0,0,0,x.5"])));
    // No lines at all.
    assert!(!loader.load_from_lines(&Vec::new()));

    assert_eq!(loader.raw_pot_datas.len(), before_len);
    assert_eq!(loader.get_raw_pot_data("RS".to_string()).data, vec![5]);
}

#[test]
fn buff_reads_until_the_first_line_without_a_dot() {
    let mut buff = Buff::new();
    assert_eq!(buff.data.len(), 0);
    let ok = buff.load_from_lines(&lines(&["12.3", "45.9", "stop", "99.9"]));
    assert!(ok);
    assert_eq!(buff.data, vec![12, 45]);
}

#[test]
fn buff_rejects_an_unreadable_cell() {
    let mut buff = Buff::new();
    assert!(buff.load_from_lines(&lines(&["1.0"])));
    assert!(!buff.load_from_lines(&lines(&["x.0"])));
    assert_eq!(buff.data, vec![1]);
}

#[test]
fn buff_scratch_block_starts_zeroed() {
    let buff = Buff::new();
    let stack = buff.getstackBuff();
    assert_eq!(stack.len(), sd2_telem::data::BUFF_SIZE);
    assert!(stack.iter().all(|v| *v == 0));
}
