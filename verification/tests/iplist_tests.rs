//! Tests for the record list: construction, access, equality, sorting.

use dmarc_rs::addr::IpAddr;
use dmarc_rs::ip::Ip;
use dmarc_rs::iplist::IpList;

#[test]
fn test_push() {
    let mut l = IpList::new();

    l.push(Ip::new("9.9.9.9"));
    l.push(Ip::new("1.0.0.1"));

    assert_eq!(2, l.len());
    assert_eq!("9.9.9.9", l.0[0].ip.to_string());
}

#[test]
fn test_len() {
    let mut ipl = IpList::new();

    assert_eq!(0, ipl.len());

    ipl.push(Ip::new("1.0.0.1"));
    assert_eq!(1, ipl.len());
}

#[test]
fn test_is_empty() {
    let mut ipl = IpList::new();

    assert!(ipl.is_empty());

    ipl.push(Ip::new("1.0.0.1"));
    assert_eq!(false, ipl.is_empty());
}

#[test]
fn test_from_ip() {
    let ip = Ip::new("1.0.0.1");
    let ipl = IpList::from_ip(ip);
    let r = IpList(vec![Ip::new("1.0.0.1")]);

    assert_eq!(r, ipl);
}

#[test]
fn test_from_array_str() {
    let l = IpList(vec![
        Ip::new("1.1.1.1"),
        Ip::new("2606:4700:4700::1111"),
        Ip::new("192.0.2.1"),
    ]);

    let l2 = IpList::from_addrs(vec!["1.1.1.1", "2606:4700:4700::1111", "192.0.2.1"]);

    assert_eq!(l, l2);
}

#[test]
fn test_from_array_tuples() {
    let l = IpList(vec![
        Ip {
            ip: IpAddr::parse("1.1.1.1").unwrap(),
            name: "one.one.one.one".to_string(),
        },
        Ip {
            ip: IpAddr::parse("2606:4700:4700::1111").unwrap(),
            name: "one.one.one.one".to_string(),
        },
        Ip {
            ip: IpAddr::parse("192.0.2.1").unwrap(),
            name: "some.host.invalid".to_string(),
        },
    ]);
    let l2 = IpList::from_pairs(vec![
        ("1.1.1.1", "one.one.one.one"),
        ("2606:4700:4700::1111", "one.one.one.one"),
        ("192.0.2.1", "some.host.invalid"),
    ]);

    assert_eq!(l, l2);
}

#[test]
fn test_collect() {
    let l = IpList::from_addrs(vec!["1.1.1.1", "2606:4700:4700::1111", "192.0.2.1"]);

    let mut s = IpList::new();
    for ip in l.into_vec() {
        s.push(ip.clone());
    }
    assert_eq!(3, s.len());
}

#[test]
fn test_collect_mut() {
    let l = IpList::from_addrs(vec!["1.1.1.1", "2606:4700:4700::1111"]);

    let mut s = IpList::new();
    for _ip in l.into_vec() {
        s.push(Ip::new("0.0.0.0"));
    }
    assert_eq!(2, s.len());
    assert_eq!("0.0.0.0".to_string(), s.get(0).ip.to_string());
}

#[test]
fn test_partial_eq() {
    let a = IpList::from_pairs(vec![("1.1.1.1", "one.one.one.one")]);
    let b = IpList::from_pairs(vec![("1.1.1.1", "one.one.one.one")]);

    assert_eq!(a, b);
}

#[test]
fn test_index() {
    let l = IpList::from_addrs(vec!["1.1.1.1", "2606:4700:4700::1111", "192.0.2.1"]);
    assert_eq!(Ip::new("1.1.1.1").ip, l.get(0).ip);
}

#[test]
fn test_index_mut() {
    let mut l = IpList::from_addrs(vec!["1.1.1.1", "2606:4700:4700::1111", "192.0.2.1"]);
    l.set(0, Ip::new("9.9.9.9"));
    assert_eq!(IpAddr::parse("9.9.9.9").unwrap(), l.get(0).ip);
}

#[test]
fn test_iplist_for() {
    let l = IpList::from_pairs(vec![
        ("1.1.1.1", "one.one.one.one"),
        ("2606:4700:4700::1111", "one.one.one.one"),
        ("192.0.2.1", "some.host.invalid"),
    ]);
    assert_eq!(3, l.len());

    let r = vec!["1.1.1.1", "2606:4700:4700::1111", "192.0.2.1"];
    assert_eq!(3, r.len());

    let mut ips = vec![];

    for ip in l.into_vec() {
        ips.push(ip.ip.to_string());
    }
    assert_eq!(r, ips);
}

#[test]
fn test_sort() {
    let mut ipl = IpList::from_addrs(vec![
        "224.0.0.1",
        "1.0.0.1",
        "2.3.4.5",
        "1.1.1.1",
        "192.0.2.1",
    ]);
    let s = IpList::from_addrs(vec![
        "1.0.0.1",
        "1.1.1.1",
        "2.3.4.5",
        "192.0.2.1",
        "224.0.0.1",
    ]);

    ipl.sort();
    assert_eq!(s, ipl);
}

#[test]
fn test_sort_by_name_on_equal_addresses() {
    let mut ipl = IpList::from_pairs(vec![
        ("1.1.1.1", "bbb"),
        ("1.1.1.1", "aaa"),
        ("0.0.0.0", "zzz"),
    ]);
    let s = IpList::from_pairs(vec![
        ("0.0.0.0", "zzz"),
        ("1.1.1.1", "aaa"),
        ("1.1.1.1", "bbb"),
    ]);

    ipl.sort();
    assert_eq!(s, ipl);
}

#[test]
fn test_clone() {
    let ipl = IpList::from_addrs(vec![
        "224.0.0.1",
        "1.0.0.1",
        "2.3.4.5",
        "1.1.1.1",
        "192.0.2.1",
    ]);
    let r = ipl.clone();

    assert_eq!(ipl, r);
}
