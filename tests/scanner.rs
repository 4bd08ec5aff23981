use helios::address::{host_address_of, str_less, subnet_prefix_of};
use helios::scanner::{candidate_addresses, scan_result, HOSTS_PER_SUBNET};

fn responders(hosts: &[usize]) -> Vec<bool> {
    let mut v = vec![false; HOSTS_PER_SUBNET];
    for &h in hosts {
        v[h - 1] = true;
    }
    v
}

#[test]
fn scan_reports_responders_in_string_order() {
    let r = scan_result("10.0.0.", &responders(&[5, 10, 20]));
    assert_eq!(r, vec!["10.0.0.10", "10.0.0.20", "10.0.0.5"]);
}

#[test]
fn scan_orders_by_text_not_by_number() {
    let r = scan_result("192.168.1.", &responders(&[2, 10]));
    assert_eq!(r, vec!["192.168.1.10", "192.168.1.2"]);
}

#[test]
fn scan_with_no_responders_is_empty() {
    let r = scan_result("10.0.0.", &responders(&[]));
    assert!(r.is_empty());
}

#[test]
fn scan_with_every_host_answering_lists_each_once_sorted() {
    let all: Vec<usize> = (1..=HOSTS_PER_SUBNET).collect();
    let r = scan_result("10.1.2.", &responders(&all));
    assert_eq!(r.len(), HOSTS_PER_SUBNET);
    for w in r.windows(2) {
        assert!(w[0] < w[1]);
    }
    assert_eq!(r[0], "10.1.2.1");
    assert_eq!(r[1], "10.1.2.10");
    assert_eq!(r[2], "10.1.2.100");
    assert_eq!(r[HOSTS_PER_SUBNET - 1], "10.1.2.99");
}

#[test]
fn scan_is_the_same_for_the_same_responders() {
    let a = scan_result("10.0.0.", &responders(&[254, 1, 77]));
    let b = scan_result("10.0.0.", &responders(&[77, 254, 1]));
    assert_eq!(a, b);
    assert_eq!(a, vec!["10.0.0.1", "10.0.0.254", "10.0.0.77"]);
}

#[test]
fn candidates_cover_hosts_one_to_254() {
    let c = candidate_addresses("192.168.1.");
    assert_eq!(c.len(), 254);
    assert_eq!(c[0], "192.168.1.1");
    assert_eq!(c[9], "192.168.1.10");
    assert_eq!(c[253], "192.168.1.254");
}

#[test]
fn host_address_appends_decimal() {
    assert_eq!(host_address_of("10.0.0.", 0), "10.0.0.0");
    assert_eq!(host_address_of("10.0.0.", 7), "10.0.0.7");
    assert_eq!(host_address_of("10.0.0.", 254), "10.0.0.254");
    assert_eq!(host_address_of("", 4294967295), "4294967295");
}

#[test]
fn string_order_matches_std() {
    let words = ["", "1", "10", "2", "10.0.0.5", "10.0.0.10", "a", "ab", "b", "\u{e9}", "z"];
    for a in words.iter() {
        for b in words.iter() {
            assert_eq!(str_less(a, b), a < b, "{} < {}", a, b);
        }
    }
}

#[test]
fn subnet_prefix_keeps_up_to_last_dot() {
    assert_eq!(subnet_prefix_of("192.168.1.42"), "192.168.1.");
    assert_eq!(subnet_prefix_of("127.0.0.1"), "127.0.0.");
    assert_eq!(subnet_prefix_of("10."), "10.");
    assert_eq!(subnet_prefix_of("localhost"), "localhost.");
    assert_eq!(subnet_prefix_of(""), ".");
}
