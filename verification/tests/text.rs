use portfolio_solver_framework::text::{
    chars_of, lines, read_i64, read_u64, read_usize, split, str_eq, string_of, trim, trim_end,
    usize_to_string,
};

const SAMPLES: [&str; 24] = [
    "",
    " ",
    "a",
    " a ",
    "\ta b\n",
    "a\nb",
    "a\nb\n",
    "a\r\nb\r\n",
    "a\rb\r",
    "\n",
    "\n\n",
    "\r\n",
    "\r",
    "a\n\rb",
    "  x,y ,, z  ",
    ",",
    ",,",
    "=",
    "k=v=w,",
    "\u{a0}wide\u{3000}",
    "\u{2003}em\u{2028}",
    "\u{200b}zero width is no space\u{200b}",
    "ünï,cödé\n操作\r\n",
    "a\u{85}\u{1680}",
];

#[test]
fn lines_are_those_of_std() {
    for s in SAMPLES {
        let expected: Vec<String> = s.lines().map(str::to_owned).collect();
        assert_eq!(lines(s), expected, "{s:?}");
    }
}

#[test]
fn pieces_are_those_of_std() {
    for s in SAMPLES {
        for c in [',', '=', '\n', 'a'] {
            let expected: Vec<String> = s.split(c).map(str::to_owned).collect();
            assert_eq!(split(s, c), expected, "{s:?} at {c:?}");
        }
    }
}

#[test]
fn trimming_is_that_of_std() {
    for s in SAMPLES {
        assert_eq!(trim(s), s.trim(), "{s:?}");
        assert_eq!(trim_end(s), s.trim_end(), "{s:?}");
    }
}

#[test]
fn characters_and_slices() {
    for s in SAMPLES {
        let v = chars_of(s);
        assert_eq!(v, s.chars().collect::<Vec<char>>());
        assert_eq!(string_of(&v, 0, v.len()), s);
        for t in SAMPLES {
            assert_eq!(str_eq(s, t), s == t);
        }
    }
    let v = chars_of("héllo");
    assert_eq!(string_of(&v, 1, 3), "él");
    assert_eq!(string_of(&v, 2, 2), "");
}

const NUMBERS: [&str; 30] = [
    "",
    "0",
    "-0",
    "+0",
    "7",
    "+7",
    "-7",
    "007",
    "-007",
    "+-7",
    "-+7",
    "--7",
    "++7",
    "+",
    "-",
    " 7",
    "7 ",
    "7a",
    "a7",
    "1_000",
    "٣",
    "9223372036854775807",
    "9223372036854775808",
    "-9223372036854775808",
    "-9223372036854775809",
    "18446744073709551615",
    "18446744073709551616",
    "000000000000000000000000000000018446744073709551615",
    "99999999999999999999999999999999999999",
    "1e3",
];

#[test]
fn numbers_are_read_as_std_reads_them() {
    for s in NUMBERS {
        let v = chars_of(s);
        assert_eq!(read_i64(&v, 0, v.len()), s.parse::<i64>().ok(), "{s:?}");
        assert_eq!(read_u64(&v, 0, v.len()), s.parse::<u64>().ok(), "{s:?}");
        assert_eq!(read_usize(&v, 0, v.len()), s.parse::<usize>().ok(), "{s:?}");
    }
    let v = chars_of("x=-12;");
    assert_eq!(read_i64(&v, 2, 5), Some(-12));
    assert_eq!(read_i64(&v, 2, 6), None);
}

#[test]
fn numbers_are_written_as_std_writes_them() {
    for n in [0usize, 1, 9, 10, 11, 99, 100, 12345, usize::MAX] {
        assert_eq!(usize_to_string(n), n.to_string());
    }
}
