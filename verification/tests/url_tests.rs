use nuget_manifest::nix_hash::hash;
use nuget_manifest::url_builder::build_download_url;
use nuget_manifest::url_builder::ensure_trailing_slash;
use nuget_manifest::urlenc::encode_segment;

fn percent_decode(s: &str) -> String {
    let bytes = s.as_bytes();
    let mut out: Vec<u8> = Vec::new();
    let mut i = 0;
    while i < bytes.len() {
        if bytes[i] == b'%' {
            let hi = (bytes[i + 1] as char).to_digit(16).unwrap() as u8;
            let lo = (bytes[i + 2] as char).to_digit(16).unwrap() as u8;
            out.push(16 * hi + lo);
            i += 3;
        } else {
            out.push(bytes[i]);
            i += 1;
        }
    }
    String::from_utf8(out).unwrap()
}

#[test]
fn encode_keeps_unreserved_characters() {
    assert_eq!(encode_segment("Newtonsoft.Json"), "Newtonsoft.Json");
    assert_eq!(encode_segment("abc-XYZ_0.9~"), "abc-XYZ_0.9~");
}

#[test]
fn encode_escapes_reserved_characters() {
    assert_eq!(encode_segment("my pkg"), "my%20pkg");
    assert_eq!(encode_segment("1.0.0+meta"), "1.0.0%2Bmeta");
    assert_eq!(encode_segment("a/b"), "a%2Fb");
}

#[test]
fn encode_escapes_multibyte_characters() {
    assert_eq!(encode_segment("\u{e9}"), "%C3%A9");
}

#[test]
fn build_url_exact_shape() {
    let url = build_download_url("https://reg.example/base/", "Serilog", "2.10.0");
    assert_eq!(url, "https://reg.example/base/Serilog/2.10.0/Serilog.2.10.0.nupkg");
}

#[test]
fn build_url_is_deterministic_and_injective_on_samples() {
    let a = build_download_url("https://r/base/", "A", "1.0");
    let b = build_download_url("https://r/base/", "A", "1.0");
    assert_eq!(a, b);
    let c = build_download_url("https://r/base/", "A.1", "0");
    let d = build_download_url("https://r/base/A/", "1.0", "x");
    assert_ne!(a, c);
    assert_ne!(a, d);
    assert_ne!(c, d);
}

#[test]
fn build_url_round_trip_recovers_segments() {
    let base = "https://reg.example/v3-flatcontainer/";
    let id = "my pkg";
    let version = "1.0.0+x";
    let url = build_download_url(base, id, version);
    let segments: Vec<&str> = url.split('/').collect();
    let n = segments.len();
    assert_eq!(percent_decode(segments[n - 3]), id);
    assert_eq!(percent_decode(segments[n - 2]), version);
    let tail_len = segments[n - 3].len() + segments[n - 2].len() + segments[n - 1].len() + 2;
    assert_eq!(&url[..url.len() - tail_len], base);
}

#[test]
fn trailing_slash_is_normalized() {
    assert_eq!(ensure_trailing_slash("https://a/x".to_string()), "https://a/x/");
    assert_eq!(ensure_trailing_slash("https://a/x/".to_string()), "https://a/x/");
    assert_eq!(ensure_trailing_slash("".to_string()), "/");
}

#[test]
fn trailing_slash_lands_before_query_and_fragment() {
    assert_eq!(
        ensure_trailing_slash("https://a/x?sig=1".to_string()),
        "https://a/x/?sig=1"
    );
    assert_eq!(
        ensure_trailing_slash("https://a/x/?sig=1".to_string()),
        "https://a/x/?sig=1"
    );
    assert_eq!(ensure_trailing_slash("https://a/x#frag".to_string()), "https://a/x/#frag");
    assert_eq!(ensure_trailing_slash("?q".to_string()), "/?q");
}

#[test]
fn hash_matches_known_digests() {
    let empty: Vec<u8> = Vec::new();
    assert_eq!(hash(&empty), "0mdqa9w1p6cmli6976v4wi0sw9r4p5prkj7lzfd1877wk11c9c73");
    let hello: Vec<u8> = b"hello".to_vec();
    assert_eq!(hash(&hello), "094qif9n4cq4fdg459qzbhg1c6wywawwaaivx0k0x8xhbyx4vwic");
}
