use snowflake_proxy::text::{chars_of, lines_of, split_chars, words_of};

fn to_strings(v: Vec<Vec<char>>) -> Vec<String> {
    v.into_iter().map(|l| l.into_iter().collect()).collect()
}

const SAMPLES: &[&str] = &[
    "",
    "\n",
    "\r\n",
    "a",
    "a\n",
    "a\r",
    "a\r\n",
    "a\r\r\n",
    "a\nb",
    "a\n\nb\n",
    "\r",
    "\r\r\n\n",
    " a  b\t\tc \u{3000}d\u{85}e\u{2028}f\u{a0} ",
    "x\u{200b}y\u{1680}z\u{205f}w\u{180e}v",
    "héllo wörld\r\nzz",
    ":::a::b:",
    ",a,,b,",
];

#[test]
fn lines_match_std() {
    for s in SAMPLES {
        let cs = chars_of(s);
        let expected: Vec<String> = s.lines().map(|l| l.to_string()).collect();
        assert_eq!(to_strings(lines_of(&cs)), expected, "{:?}", s);
    }
}

#[test]
fn words_match_std() {
    for s in SAMPLES {
        let cs = chars_of(s);
        let expected: Vec<String> = s.split_whitespace().map(|l| l.to_string()).collect();
        assert_eq!(to_strings(words_of(&cs)), expected, "{:?}", s);
    }
}

#[test]
fn split_matches_std() {
    for s in SAMPLES {
        let cs = chars_of(s);
        for sep in [':', ',', '\n', 'a'] {
            let expected: Vec<String> = s.split(sep).map(|l| l.to_string()).collect();
            assert_eq!(to_strings(split_chars(&cs, sep)), expected, "{:?} {:?}", s, sep);
        }
    }
}

