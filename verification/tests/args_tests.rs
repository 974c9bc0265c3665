use cfnat::args::{approximate_display_width, format_help_line, help_text, last_address, ArgError, Args, ParsedArgs};
use cfnat::net::SockAddr;

fn strings(v: &[&str]) -> Vec<String> {
    v.iter().map(|s| s.to_string()).collect()
}

fn parse(v: &[&str]) -> ParsedArgs {
    match Args::parse_from_iter(&strings(v)) {
        Ok(p) => p,
        Err(_) => panic!("expected a configuration"),
    }
}

#[test]
fn pairs_take_values_that_do_not_start_with_a_dash() {
    let pairs = Args::parse_args_to_vec(&strings(&["-addr", "1.2.3.4:5", "stray", "-dl", "-tlr", "0.2", "--colo", "HKG"]));
    assert_eq!(
        pairs,
        vec![
            ("addr".to_string(), Some("1.2.3.4:5".to_string())),
            ("dl".to_string(), None),
            ("tlr".to_string(), Some("0.2".to_string())),
            ("colo".to_string(), Some("HKG".to_string())),
        ]
    );
}

#[test]
fn no_arguments_give_the_defaults() {
    let p = parse(&[]);
    let c = &p.config;
    assert_eq!(c.ip_file, "ip.txt");
    assert_eq!(c.http, "http://cp.cloudflare.com/cdn-cgi/trace");
    assert_eq!(c.delay_limit, 500);
    assert_eq!(c.ips, 10);
    assert_eq!(c.threads, 16);
    assert_eq!(c.tls_port, 443);
    assert_eq!(c.http_port, 80);
    assert_eq!(c.colo, None);
    assert_eq!(c.addr, SockAddr::V4 { ip4: 0x7f06_0606, port: 1234 });
    assert_eq!(c.max_sticky_slots, 5);
    assert_eq!(c.custom_ips, None);
    assert_eq!(c.domains, None);
    assert_eq!(c.api_addr, None);
    assert!(p.tlr_values.is_empty() && p.addr_values.is_empty() && p.api_values.is_empty());
}

#[test]
fn numeric_settings_are_clamped() {
    let p = parse(&["-dl", "5000", "-ips", "200", "-n", "0", "-tp", "0", "-p", "8080", "-s", "100"]);
    assert_eq!(p.config.delay_limit, 2000);
    assert_eq!(p.config.ips, 128);
    assert_eq!(p.config.threads, 1);
    assert_eq!(p.config.tls_port, 1);
    assert_eq!(p.config.http_port, 8080);
    assert_eq!(p.config.max_sticky_slots, 32);
    let q = parse(&["-dl", "0", "-s", "0", "-ips", "64"]);
    assert_eq!(q.config.delay_limit, 1);
    assert_eq!(q.config.max_sticky_slots, 1);
    assert_eq!(q.config.ips, 64);
}

#[test]
fn unparsable_numbers_keep_the_setting() {
    let p = parse(&["-dl", "abc", "-ips", "3x", "-p", "70000", "-n", "+8"]);
    assert_eq!(p.config.delay_limit, 500);
    assert_eq!(p.config.ips, 10);
    assert_eq!(p.config.http_port, 80);
    assert_eq!(p.config.threads, 8);
}

#[test]
fn lists_are_trimmed_and_blank_items_dropped() {
    let p = parse(&["-colo", "HKG, LAX,,", "-ip", " 1.1.1.1 ,2.2.2.2", "-domain", "a.com"]);
    assert_eq!(p.config.colo, Some(strings(&["HKG", "LAX"])));
    assert_eq!(p.config.custom_ips, Some(strings(&["1.1.1.1", "2.2.2.2"])));
    assert_eq!(p.config.domains, Some(strings(&["a.com"])));
    let q = parse(&["-ip", ",, ", "-colo", ","]);
    assert_eq!(q.config.custom_ips, None);
    assert_eq!(q.config.colo, Some(vec![]));
}

#[test]
fn colo_without_value_clears_it() {
    let p = parse(&["-colo", "HKG", "-colo"]);
    assert_eq!(p.config.colo, None);
}

#[test]
fn text_settings_take_the_value() {
    let p = parse(&["-f", "list.txt", "-http", "http://x/y", "-f"]);
    assert_eq!(p.config.ip_file, "list.txt");
    assert_eq!(p.config.http, "http://x/y");
}

#[test]
fn float_and_address_values_are_kept_in_order() {
    let p = parse(&["-tlr", "0.3", "-addr", "bad", "-tlr", "x", "-addr", "0.0.0.0:80", "-api", "127.0.0.1:9"]);
    assert_eq!(p.tlr_values, strings(&["0.3", "x"]));
    assert_eq!(p.addr_values, strings(&["bad", "0.0.0.0:80"]));
    assert_eq!(p.api_values, strings(&["127.0.0.1:9"]));
}

#[test]
fn settled_addresses_take_the_last_that_parsed() {
    let mut p = parse(&["-addr", "a", "-addr", "b", "-addr", "c"]);
    let first = SockAddr::V4 { ip4: 1, port: 2 };
    let second = SockAddr::V6 { ip6: 1, port: 3, flowinfo: 0, scope_id: 0 };
    p.settle_addresses(&vec![Some(first), Some(second), None], &vec![None]);
    assert_eq!(p.config.addr, second);
    assert_eq!(p.config.api_addr, None);
    p.settle_addresses(&vec![], &vec![Some(first)]);
    assert_eq!(p.config.addr, second);
    assert_eq!(p.config.api_addr, Some(first));
    assert_eq!(last_address(&vec![None, None]), None);
}

#[test]
fn unknown_key_is_refused() {
    match Args::parse_from_iter(&strings(&["-ips", "3", "-bogus", "1", "-zzz"])) {
        Err(ArgError::UnknownKey(k)) => assert_eq!(k, "bogus"),
        _ => panic!("expected an unknown key"),
    }
}

#[test]
fn negative_number_reads_as_a_key() {
    match Args::parse_from_iter(&strings(&["-ips", "-3"])) {
        Err(ArgError::UnknownKey(k)) => assert_eq!(k, "3"),
        _ => panic!("expected an unknown key"),
    }
}

#[test]
fn program_name_alone_gives_nothing() {
    assert!(Args::parse_to_config(&strings(&["cfnat"])).is_none());
}

#[test]
fn dash_h_asks_for_help() {
    match Args::parse_to_config(&strings(&["cfnat", "-ips", "3", "-h"])) {
        Some(Err(ArgError::HelpRequested)) => {}
        _ => panic!("expected help"),
    }
}

#[test]
fn program_arguments_after_the_name_are_parsed() {
    match Args::parse_to_config(&strings(&["cfnat", "-ips", "3"])) {
        Some(Ok(p)) => assert_eq!(p.config.ips, 3),
        _ => panic!("expected a configuration"),
    }
}

#[test]
fn typed_line_is_split_on_white_space() {
    assert!(Args::parse_line_to_config("   \t ").is_none());
    match Args::parse_line_to_config("  -ips 20\t-n  8 ") {
        Some(Ok(p)) => {
            assert_eq!(p.config.ips, 20);
            assert_eq!(p.config.threads, 8);
        }
        _ => panic!("expected a configuration"),
    }
    match Args::parse_line_to_config("-h") {
        Some(Err(ArgError::UnknownKey(k))) => assert_eq!(k, "h"),
        _ => panic!("a typed -h is an unknown key"),
    }
}

#[test]
fn display_width_counts_wide_characters_twice_and_skips_colors() {
    assert_eq!(approximate_display_width("abc"), 3);
    assert_eq!(approximate_display_width("中文"), 4);
    assert_eq!(approximate_display_width("\x1b[32mab\x1b[0m"), 2);
    assert_eq!(approximate_display_width("\x1b[1;35m参数\x1b[0m"), 4);
    assert_eq!(approximate_display_width(""), 0);
    // A color sequence also ends at a letter other than `m`, and not at a digit or `;`.
    assert_eq!(approximate_display_width("\x1b[2Kxy"), 2);
    assert_eq!(approximate_display_width("\x1b[1;2;3mZ"), 1);
    assert_eq!(approximate_display_width("\x1b[1;2;3é"), 0);
}

#[test]
fn help_line_pads_each_column() {
    let line = format_help_line("-s", "最大负载槽数", "5");
    let expected = format!(
        " \x1b[32m-s\x1b[0m{}最大负载槽数{}\x1b[2m5\x1b[0m{}\n",
        " ".repeat(9),
        " ".repeat(33),
        " ".repeat(14)
    );
    assert_eq!(line, expected);
}

#[test]
fn help_line_does_not_pad_past_a_long_field() {
    let long = "x".repeat(50);
    let line = format_help_line("-verylongname", &long, "0123456789abcdefg");
    assert_eq!(
        line,
        format!(" \x1b[32m-verylongname\x1b[0m{}\x1b[2m0123456789abcdefg\x1b[0m\n", long)
    );
}

#[test]
fn help_screen_lists_every_option() {
    let t = help_text();
    assert!(t.starts_with("\x1b[1;35m参数说明\x1b[0m\n\n"));
    assert_eq!(t.matches('\n').count(), 2 + 14);
    assert!(t.contains(&format_help_line("-addr", "本地监听的 IP 和端口", "127.6.6.6:1234")));
    assert!(t.ends_with(&format_help_line("-domain", "从域名解析 IP，逗号分隔", "未指定")));
}

#[test]
fn a_later_flag_changes_only_its_setting() {
    let a = parse(&["-dl", "9", "-ips", "3", "-colo", "HKG"]);
    let b = parse(&["-dl", "9", "-ips", "3", "-colo", "HKG", "-ips", "7"]);
    assert_eq!(b.config.ips, 7);
    assert_eq!(a.config.ips, 3);
    assert_eq!((b.config.delay_limit, b.config.colo.clone(), b.config.threads), (a.config.delay_limit, a.config.colo.clone(), a.config.threads));
}

#[test]
fn ascii_width_is_length_and_help_lines_line_up() {
    assert_eq!(approximate_display_width("-domain x"), 9);
    let short = format_help_line("-s", "最大负载槽数", "5");
    let other = format_help_line("-domain", "从域名解析 IP，逗号分隔", "未指定");
    assert_eq!(approximate_display_width(&short), 73);
    assert_eq!(approximate_display_width(&other), 73);
}

#[test]
fn colored_mixed_text_counts_only_visible_characters() {
    assert_eq!(approximate_display_width("\x1b[32m参数-a\x1b[0m"), 6);
}

#[test]
fn help_line_for_delay_limit_is_padded_exactly() {
    let line = format_help_line("-dl", "desc", "500");
    let expected = String::from(" \x1b[32m-dl\x1b[0m")
        + &" ".repeat(8)
        + "desc"
        + &" ".repeat(41)
        + "\x1b[2m500\x1b[0m"
        + &" ".repeat(12)
        + "\n";
    assert_eq!(line, expected);
    assert_eq!(approximate_display_width(&line), 73);
}
