use ashell::scan::{
    find_ip_addresses, find_ip_len, find_keyword, find_port_len, find_ports, find_url_len,
    find_urls, is_boundary,
};

#[test]
fn boundary_characters() {
    assert!(!is_boundary('a'));
    assert!(!is_boundary('Z'));
    assert!(!is_boundary('7'));
    assert!(!is_boundary('_'));
    assert!(is_boundary(' '));
    assert!(is_boundary('-'));
    assert!(is_boundary(':'));
    assert!(is_boundary('é'));
}

#[test]
fn keyword_whole_words_only() {
    assert_eq!(find_keyword("ERROR: disk full", "ERROR"), vec![0]);
    assert_eq!(find_keyword("an ERROR and ERROR", "ERROR"), vec![3, 13]);
    assert_eq!(find_keyword("MYERROR", "ERROR"), Vec::<usize>::new());
    assert_eq!(find_keyword("ERRORS", "ERROR"), Vec::<usize>::new());
    assert_eq!(find_keyword("ERROR_1", "ERROR"), Vec::<usize>::new());
    assert_eq!(find_keyword("[ERROR]", "ERROR"), vec![1]);
    assert_eq!(find_keyword("", "ERROR"), Vec::<usize>::new());
}

#[test]
fn keyword_search_resumes_after_a_match() {
    // The occurrence at 0 is followed by a letter; the search resumes at 2 and
    // finds nothing more, so the occurrence at 1 is never considered.
    assert_eq!(find_keyword("AAA", "AA"), Vec::<usize>::new());
    assert_eq!(find_keyword("AA AA", "AA"), vec![0, 3]);
    assert_eq!(find_keyword("OK-OK", "OK"), vec![0, 3]);
}

#[test]
fn keyword_offsets_are_bytes() {
    // "é" takes two bytes.
    assert_eq!(find_keyword("é ERROR", "ERROR"), vec![3]);
    assert_eq!(find_keyword("éERROR", "ERROR"), vec![2]);
}

#[test]
fn ip_length_of_dotted_quads() {
    assert_eq!(find_ip_len("192.168.1.1 host"), 11);
    assert_eq!(find_ip_len("10.0.0.1"), 8);
    assert_eq!(find_ip_len("256.1.1.1"), 9);
    assert_eq!(find_ip_len("1.2.3"), 0);
    assert_eq!(find_ip_len("1.2.3.4567"), 0);
    assert_eq!(find_ip_len("1.2.3.4.5"), 0);
    assert_eq!(find_ip_len("1.2.3.4."), 0);
    assert_eq!(find_ip_len("1..2.3"), 0);
    assert_eq!(find_ip_len(".1.2.3.4"), 0);
    assert_eq!(find_ip_len("1234.1.1.1"), 0);
    assert_eq!(find_ip_len(""), 0);
    assert_eq!(find_ip_len("x1.2.3.4"), 0);
}

#[test]
fn ip_addresses_in_text() {
    assert_eq!(find_ip_addresses("host 10.0.0.1 and 999.1.1.1"), vec![5]);
    assert_eq!(find_ip_addresses("x 1.2.3.4"), vec![2]);
    assert_eq!(find_ip_addresses("11.2.3.4"), vec![0]);
    assert_eq!(find_ip_addresses("a10.0.0.1"), Vec::<usize>::new());
    assert_eq!(find_ip_addresses("255.255.255.255"), vec![0]);
    assert_eq!(find_ip_addresses("1.2.3.256"), Vec::<usize>::new());
    assert_eq!(find_ip_addresses("1.2.3.4,5.6.7.8"), vec![0, 8]);
}

#[test]
fn urls_in_text() {
    assert_eq!(find_urls("see https://a.b/c and http://x"), vec![4, 22]);
    assert_eq!(find_urls("xhttp://a"), Vec::<usize>::new());
    assert_eq!(find_urls("http:/x https:x"), Vec::<usize>::new());
    assert_eq!(find_urls("(http://a)"), vec![1]);
    assert_eq!(find_urls("httphttp://a"), Vec::<usize>::new());
}

#[test]
fn url_length_runs_to_whitespace() {
    assert_eq!(find_url_len("https://a.b c"), 11);
    assert_eq!(find_url_len("https://a.b\tc"), 11);
    assert_eq!(find_url_len("https://a.b"), 11);
    assert_eq!(find_url_len(""), 0);
}

#[test]
fn ports_in_text() {
    assert_eq!(find_ports(" :8080 x"), vec![1]);
    assert_eq!(find_ports("port :22,"), vec![5]);
    assert_eq!(find_ports(":65535"), vec![0]);
    assert_eq!(find_ports(":65536"), Vec::<usize>::new());
    assert_eq!(find_ports(":0"), Vec::<usize>::new());
    assert_eq!(find_ports(":0080"), vec![0]);
    assert_eq!(find_ports(":80a"), Vec::<usize>::new());
    // A colon glued to a word does not start a port.
    assert_eq!(find_ports("localhost:8080"), Vec::<usize>::new());
    assert_eq!(find_ports("10.0.0.1:22"), Vec::<usize>::new());
    assert_eq!(find_ports(":"), Vec::<usize>::new());
}

#[test]
fn port_length() {
    assert_eq!(find_port_len(":8080 x"), 5);
    assert_eq!(find_port_len(":"), 1);
    assert_eq!(find_port_len("8080"), 0);
    assert_eq!(find_port_len(""), 0);
}


#[test]
fn reported_matches_have_length() {
    let text = "go http://h:8080/x at 10.1.2.3:22 and :443, https://y";
    let ports = find_ports(text);
    assert_eq!(ports, vec![38]);
    for p in ports {
        assert!(find_port_len(&text[p..]) >= 2);
    }
    let urls = find_urls(text);
    assert_eq!(urls.len(), 2);
    for p in urls {
        assert!(find_url_len(&text[p..]) >= 7);
    }
    let ips = find_ip_addresses(text);
    assert_eq!(ips, vec![22]);
    for p in ips {
        assert_eq!(find_ip_len(&text[p..]), 8);
    }
}

#[test]
fn port_length_is_its_digit_run() {
    let text = "a :65535 b :0080, c :70000 d :1x";
    let ports = find_ports(text);
    assert_eq!(ports, vec![2, 11]);
    assert_eq!(find_port_len(&text[2..]), 6);
    assert_eq!(find_port_len(&text[11..]), 5);
}
