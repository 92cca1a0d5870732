use vela::network::{lan_addresses, split_lines, split_words};

#[test]
fn lan_from_ip_route() {
    let out = "default via 192.168.1.1 dev wlan0 proto dhcp src 192.168.1.5 metric 600\r\n\
               192.168.1.0/24 dev wlan0 proto kernel scope link src 192.168.1.5 metric 600\n\
               default via 10.0.0.1 dev eth0\n\
               default  via 10.0.0.1 dev eth0 proto static src 10.0.0.7\n";
    assert_eq!(lan_addresses(out), vec!["192.168.1.5".to_string(), "10.0.0.7".to_string()]);
    assert!(lan_addresses("").is_empty());
    assert!(lan_addresses(" default via a b c d e f g").is_empty());
}

#[test]
fn lines_and_words_match_std() {
    let texts = ["", "a", "a\n", "a\r\nb", "a\r", "\n\n", "x\ry\n", " a  b\tc\u{3000}d\u{85} ", "\u{2028}"];
    for t in texts {
        let v: Vec<char> = t.chars().collect();
        let lines: Vec<String> = split_lines(&v).into_iter().map(|l| l.into_iter().collect()).collect();
        let expected: Vec<String> = t.lines().map(|l| l.to_string()).collect();
        assert_eq!(lines, expected, "{:?}", t);
        let words: Vec<String> = split_words(&v).into_iter().map(|l| l.into_iter().collect()).collect();
        let expected: Vec<String> = t.split_whitespace().map(|l| l.to_string()).collect();
        assert_eq!(words, expected, "{:?}", t);
    }
}
