use mod_manager::releases::is_before;
use mod_manager::text::{chars_of, string_of, trim_bounds};

#[test]
fn ascii_white_space_is_the_space_and_the_controls_from_tab_to_carriage_return() {
    for code in 0u8..=0x7f {
        let c = code as char;
        let v = vec![c];
        let (lo, hi) = trim_bounds(&v, 0, 1);
        let trimmed_away = lo == hi;
        let expected = c == ' ' || ('\t'..='\r').contains(&c);
        assert_eq!(trimmed_away, expected, "{code:#x}");
        assert_eq!(c.is_whitespace(), expected, "{code:#x}");
    }
}

#[test]
fn white_space_beyond_ascii_is_trimmed_as_the_standard_library_trims_it() {
    let samples = [
        "\u{85}x\u{a0}", "\u{1680}x", "\u{2000}\u{200a}x\u{2028}\u{2029}", "\u{202f}x\u{205f}",
        "\u{3000}x\u{3000}", "\u{200b}x", "\u{180e}x", "\u{feff}x", "\u{1c}x\u{1f}", " \t\n\u{b}\u{c}\r",
    ];
    for s in samples {
        let v = chars_of(s);
        let (lo, hi) = trim_bounds(&v, 0, v.len());
        assert_eq!(string_of(&v, lo, hi), s.trim(), "{s:?}");
    }
}

#[test]
fn texts_are_ordered_as_the_standard_library_orders_them() {
    let samples = ["", "a", "A", "ab", "b", "a\u{0}", "é", "e\u{301}", "z", "\u{7f}", "\u{80}", "\u{10ffff}", "日本", "10", "9"];
    for a in samples {
        for b in samples {
            assert_eq!(is_before(a, b), a < b, "{a:?} {b:?}");
        }
    }
}
