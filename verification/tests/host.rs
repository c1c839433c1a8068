use server3::host::{host, hostname, select_host, HostChoice, InvalidHostHeader};

#[test]
fn host_header_values() {
    assert_eq!(host(&vec![]), Ok(None));
    assert_eq!(
        host(&vec![b"example.com:3000".to_vec()]),
        Ok(Some(b"example.com:3000".to_vec()))
    );
    assert_eq!(host(&vec![b"a\tb".to_vec()]), Ok(Some(b"a\tb".to_vec())));
    assert_eq!(
        host(&vec![b"a".to_vec(), b"b".to_vec()]),
        Err(InvalidHostHeader)
    );
    assert_eq!(host(&vec![vec![0xff]]), Err(InvalidHostHeader));
    assert_eq!(host(&vec![b"a\nb".to_vec()]), Err(InvalidHostHeader));
}

#[test]
fn hostnames_drop_the_port() {
    assert_eq!(hostname(b"example.com:3000"), b"example.com".to_vec());
    assert_eq!(hostname(b"example.com"), b"example.com".to_vec());
    assert_eq!(hostname(b"[::1]:8080"), b"[::1]".to_vec());
    assert_eq!(hostname(b":80"), b"".to_vec());
    assert_eq!(hostname(b""), b"".to_vec());
}

#[test]
fn hosts_select_their_cache() {
    let hosts = vec!["a.example".to_string(), "b.example".to_string()];
    assert_eq!(
        select_host(&hosts, true, Some("b.example")),
        Some(HostChoice::Host(1))
    );
    assert_eq!(
        select_host(&hosts, true, Some("c.example")),
        Some(HostChoice::Default)
    );
    assert_eq!(select_host(&hosts, true, None), Some(HostChoice::Default));
    assert_eq!(select_host(&hosts, false, Some("c.example")), None);
    assert_eq!(
        select_host(&hosts, false, Some("a.example")),
        Some(HostChoice::Host(0))
    );
}

#[test]
fn repeated_host_names_select_the_first() {
    let hosts = vec![
        "a.example".to_string(),
        "b.example".to_string(),
        "a.example".to_string(),
        "b.example".to_string(),
    ];
    assert_eq!(
        select_host(&hosts, true, Some("a.example")),
        Some(HostChoice::Host(0))
    );
    assert_eq!(
        select_host(&hosts, false, Some("b.example")),
        Some(HostChoice::Host(1))
    );
}
