use windows_tool::port_forwarding::cmd::{add_cmd, del_cmd, port_proxy_v4tov4_cmd, reset_cmd, set_cmd};
use windows_tool::port_forwarding::command::{from_cmd_data, from_cmd_load_port_forwarding};
use windows_tool::port_forwarding::ipv::Ipv;
use windows_tool::port_forwarding::PortForwarding;
use windows_tool::utils::check_ipv4_by_string;

const LISTING: &str = "\r\n侦听 ipv4:                 连接到 ipv4:\r\n\r\n地址            端口        地址            端口\r\n--------------- ----------  --------------- ----------\r\n127.0.0.1       100         127.0.0.1       666\r\n10.0.0.1        70000       10.0.0.2        22\r\n0.0.0.0         8080        192.168.1.9     80   \r\n\r\n";

fn listing() -> String {
    LISTING.to_string()
}

#[test]
fn list_port_proxy() {
    let p = PortForwarding::get_ipv4_to_ipv4(&listing());
    println!("ipv4_to_ipv4 {:?}", p);
    assert_eq!(p.len(), 2);
}

#[test]
fn port_forwarding_roundtrip() {
    assert!(check_ipv4_by_string("127.0.0.1"));
    assert!(!check_ipv4_by_string("asef.asef.0.1"));
    assert!(!check_ipv4_by_string("12.0.0"));
    let reset = PortForwarding::reset();
    assert_eq!(reset.command, "netsh interface portproxy reset");
    let item = PortForwarding::new(("127.0.0.1", 100), ("127.0.0.1", 666));
    let run = item.forward();
    assert_eq!(
        run.command,
        "netsh interface portproxy add v4tov4 listenaddress=127.0.0.1 listenport=100  connectaddress=127.0.0.1 connectport=666"
    );
    let p = PortForwarding::get_ipv4_to_ipv4(&listing());
    println!("ipv4_to_ipv4 {:?}", p);
    println!("item.check {}", item.check(&listing()));
    assert!(item.check(&listing()));
}

#[test]
fn listing_rows_parse_in_order() {
    let rules = from_cmd_load_port_forwarding(&listing());
    assert_eq!(rules.len(), 2);
    assert_eq!(rules[0].listen.address, "127.0.0.1");
    assert_eq!(rules[0].listen.port, 100);
    assert_eq!(rules[0].connect.port, 666);
    assert_eq!(rules[1].listen.address, "0.0.0.0");
    assert_eq!(rules[1].connect.address, "192.168.1.9");
    assert_eq!(rules[1].connect.port, 80);
}

#[test]
fn check_misses_unlisted_rule() {
    let item = PortForwarding::new(("10.0.0.1", 70000), ("10.0.0.2", 22));
    assert!(!item.check(&listing()));
    assert!(from_cmd_load_port_forwarding(&String::new()).is_empty());
}

#[test]
fn ipv4_checks() {
    assert!(check_ipv4_by_string("255.255.255.255"));
    assert!(check_ipv4_by_string("+1.2.3.4"));
    assert!(check_ipv4_by_string("001.2.3.4"));
    assert!(!check_ipv4_by_string("256.1.1.1"));
    assert!(!check_ipv4_by_string("1.2.3.4.5"));
    assert!(!check_ipv4_by_string("1..3.4"));
    assert!(!check_ipv4_by_string("-1.2.3.4"));
    assert!(!check_ipv4_by_string(""));
}

#[test]
fn command_lines() {
    let item = PortForwarding::new(("1.2.3.4", 5), ("6.7.8.9", -10));
    assert_eq!(
        add_cmd(&item),
        "netsh interface portproxy add v4tov4 listenaddress=1.2.3.4 listenport=5  connectaddress=6.7.8.9 connectport=-10"
    );
    assert_eq!(
        set_cmd(&item),
        "netsh interface portproxy set v4tov4 listenaddress=1.2.3.4 listenport=5  connectaddress=6.7.8.9 connectport=-10"
    );
    assert_eq!(
        del_cmd(&"1.2.3.4".to_string(), &5),
        "netsh interface portproxy del v4tov4 listenaddress=1.2.3.4 listenport=5"
    );
    assert_eq!(reset_cmd(), "netsh interface portproxy reset");
    assert_eq!(port_proxy_v4tov4_cmd(), "netsh interface portproxy show v4tov4");
    let del = item.del();
    assert!(del.options.use_admin && del.options.hide_window && del.options.print_command);
    assert_eq!(del.command, "netsh interface portproxy del v4tov4 listenaddress=1.2.3.4 listenport=5");
    let list = PortForwarding::list_run();
    assert!(!list.options.use_admin);
}

#[test]
fn new_multiple_skips_bad_addresses() {
    let good = PortForwarding::new(("1.1.1.1", 1), ("2.2.2.2", 2));
    let bad = PortForwarding::new(("localhost", 1), ("2.2.2.2", 2));
    let good2 = PortForwarding::new(("3.3.3.3", 3), ("4.4.4.4", 4));
    let run = PortForwarding::new_multiple(vec![good, bad, good2]);
    assert_eq!(
        run.command,
        "netsh interface portproxy add v4tov4 listenaddress=1.1.1.1 listenport=1  connectaddress=2.2.2.2 connectport=2 && netsh interface portproxy add v4tov4 listenaddress=3.3.3.3 listenport=3  connectaddress=4.4.4.4 connectport=4"
    );
    assert!(!run.options.hide_window && run.options.use_admin);
    assert_eq!(PortForwarding::new_multiple(vec![]).command, "");
}

#[test]
fn from_cmd_data_messages() {
    let ok = from_cmd_data(vec!["a".into(), "1".into(), "b".into(), "-2".into()]).unwrap();
    assert_eq!((ok.listen.address.as_str(), ok.listen.port), ("a", 1));
    assert_eq!((ok.connect.address.as_str(), ok.connect.port), ("b", -2));
    assert_eq!(from_cmd_data(vec!["a".into()]).unwrap_err(), "需传入4个数据");
    assert_eq!(
        from_cmd_data(vec!["a".into(), "x".into(), "b".into(), "1".into()]).unwrap_err(),
        "listen port: invalid digit found in string"
    );
    assert_eq!(
        from_cmd_data(vec!["a".into(), "".into(), "b".into(), "1".into()]).unwrap_err(),
        "listen port: cannot parse integer from empty string"
    );
    assert_eq!(
        from_cmd_data(vec!["a".into(), "1".into(), "b".into(), "99999999999999999999".into()]).unwrap_err(),
        "connect port: number too large to fit in target type"
    );
    assert_eq!(
        from_cmd_data(vec!["a".into(), "-99999999999999999999x".into(), "b".into(), "1".into()]).unwrap_err(),
        "listen port: number too small to fit in target type"
    );
    assert_eq!(
        from_cmd_data(vec!["a".into(), "1".into(), "b".into(), "-".into()]).unwrap_err(),
        "connect port: invalid digit found in string"
    );
}

#[test]
fn parse_errors_match_std() {
    for s in ["", "-", "+", "12a", "99999999999999999999", "-99999999999999999999", "-9223372036854775808", "9223372036854775807", "+5", "9223372036854775808x"] {
        let ours = from_cmd_data(vec!["a".into(), s.to_string(), "b".into(), "1".into()]);
        match s.parse::<i64>() {
            Ok(v) => assert_eq!(ours.unwrap().listen.port, v),
            Err(e) => assert_eq!(ours.unwrap_err(), format!("listen port: {}", e)),
        }
    }
}

#[test]
fn ipv_new_and_same_rule() {
    let a = Ipv::new("1.2.3.4", 80);
    assert_eq!((a.address.as_str(), a.port), ("1.2.3.4", 80));
    let r1 = PortForwarding::new(("1.1.1.1", 1), ("2.2.2.2", 2));
    let r2 = PortForwarding::new(("1.1.1.1", 1), ("2.2.2.2", 2));
    let r3 = PortForwarding::new(("1.1.1.1", 1), ("2.2.2.2", 3));
    assert!(r1.same_rule(&r2));
    assert!(!r1.same_rule(&r3));
    assert!(r1.check_ipv_address());
    assert!(!PortForwarding::new(("x", 1), ("2.2.2.2", 2)).check_ipv_address());
}

#[test]
fn rule_text_and_equality() {
    let a = PortForwarding::new(("127.0.0.1", 100), ("10.0.0.2", -5));
    assert_eq!(a.to_string(), "PortForwarding(from 127.0.0.1:100,to 10.0.0.2:-5)");
    assert_eq!(Ipv::new("1.2.3.4", 8080).to_string(), "地址:1.2.3.4,端口:8080");
    let b = PortForwarding::new(("127.0.0.1", 100), ("10.0.0.2", -5));
    assert!(a == b);
    let c = PortForwarding::new(("127.0.0.1", 101), ("10.0.0.2", -5));
    assert!(a != c);
}
