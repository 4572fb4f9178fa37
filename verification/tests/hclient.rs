use tcrelay::hclient::{
    dial_addr, first_success_index, is_success, mirror_url, resolve_url, Scheme, TargetError,
};

#[test]
fn resolve_plain_url() {
    let t = resolve_url(b"http://tinycorelinux.net/10.x/x86/tcz/mirrors.tcz.md5.txt").unwrap();
    assert_eq!(t.scheme, Scheme::Http);
    assert_eq!(t.host, b"tinycorelinux.net".to_vec());
    assert_eq!(t.port, 80);
    assert_eq!(t.path, b"/10.x/x86/tcz/mirrors.tcz.md5.txt".to_vec());
    assert_eq!(t.authority, b"tinycorelinux.net".to_vec());
    assert_eq!(dial_addr(&t), b"tinycorelinux.net:80".to_vec());
}

#[test]
fn resolve_explicit_port() {
    let t = resolve_url(b"http://github.com:443").unwrap();
    assert_eq!(t.scheme, Scheme::Http);
    assert_eq!(t.port, 443);
    assert_eq!(t.authority, b"github.com:443".to_vec());
    assert_eq!(dial_addr(&t), b"github.com:443".to_vec());
}

#[test]
fn resolve_tls_urls() {
    let t = resolve_url(b"https://mozilla-modern.badssl.com/").unwrap();
    assert_eq!(t.scheme, Scheme::Https);
    assert_eq!(t.port, 443);
    assert_eq!(t.host, b"mozilla-modern.badssl.com".to_vec());

    let t = resolve_url(b"https+insecure://self-signed.badssl.com/").unwrap();
    assert_eq!(t.scheme, Scheme::HttpsInsecure);
    assert_eq!(t.port, 443);

    let t = resolve_url(b"https://mitm-software.badssl.com:443/").unwrap();
    assert_eq!(t.port, 443);
    assert_eq!(t.authority, b"mitm-software.badssl.com:443".to_vec());
}

#[test]
fn resolve_rejects() {
    assert_eq!(
        resolve_url(b"http://owo: whats this!").unwrap_err(),
        TargetError::Unparseable
    );
    assert_eq!(
        resolve_url(b"gopher://example.org/").unwrap_err(),
        TargetError::UnsupportedScheme
    );
    assert_eq!(
        resolve_url(b"/just/a/path").unwrap_err(),
        TargetError::MangledHost
    );
}

#[test]
fn mirror_url_appends() {
    assert_eq!(
        mirror_url(b"http://tinycorelinux.net", b"/10.x/x86/tcz/sed.tcz.md5.txt"),
        b"http://tinycorelinux.net/10.x/x86/tcz/sed.tcz.md5.txt".to_vec()
    );
}

#[test]
fn fallback_order() {
    assert_eq!(first_success_index(&vec![false, false, true, true]), Some(2));
    assert_eq!(first_success_index(&vec![true]), Some(0));
    assert_eq!(first_success_index(&vec![false, false]), None);
    assert_eq!(first_success_index(&Vec::new()), None);
}

#[test]
fn success_statuses() {
    assert!(is_success(200));
    assert!(is_success(204));
    assert!(is_success(299));
    assert!(!is_success(199));
    assert!(!is_success(300));
    assert!(!is_success(404));
    assert!(!is_success(500));
}
