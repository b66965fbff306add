use untitled_bandit::entity::{En, Special};
use untitled_bandit::attacks::AtkPat;
use untitled_bandit::metadata::{get_metadata, Difficulty, TempMeta};
use untitled_bandit::point::Point;
use untitled_bandit::saves::{get_descs, load_kills, load_pzl_save, load_won, parse_unsigned, split_at_colons, FormatError, LoadErr};
use untitled_bandit::vfx::Glyph;
use untitled_bandit::world::Tile;

fn lines(text: &[&str]) -> Vec<Vec<char>> {
    text.iter().map(|l| l.chars().collect()).collect()
}

fn chars(s: &str) -> Vec<char> {
    s.chars().collect()
}

#[test]
fn unsigned_numbers() {
    assert_eq!(parse_unsigned(&chars("0"), 255), Some(0));
    assert_eq!(parse_unsigned(&chars("+42"), 255), Some(42));
    assert_eq!(parse_unsigned(&chars("255"), 255), Some(255));
    assert_eq!(parse_unsigned(&chars("256"), 255), None);
    assert_eq!(parse_unsigned(&chars(""), 255), None);
    assert_eq!(parse_unsigned(&chars("+"), 255), None);
    assert_eq!(parse_unsigned(&chars("1a"), 255), None);
    assert_eq!(parse_unsigned(&chars("-1"), 255), None);
    assert_eq!(parse_unsigned(&chars("340282366920938463463374607431768211455"), u128::MAX), Some(u128::MAX));
    assert_eq!(parse_unsigned(&chars("340282366920938463463374607431768211456"), u128::MAX), None);
}

#[test]
fn colon_pieces() {
    assert_eq!(split_at_colons(&chars("a:12:")), vec![chars("a"), chars("12"), chars("")]);
    assert_eq!(split_at_colons(&chars("")), vec![chars("")]);
}

#[test]
fn puzzle_save_lines() {
    let m = load_pzl_save(&lines(&["17:2", "5:3", "17:1", "9"])).unwrap();
    assert_eq!(m.len(), 2);
    assert_eq!(m[&17], 1);
    assert_eq!(m[&5], 3);
    assert!(matches!(load_pzl_save(&lines(&["x:1"])), Err(LoadErr::IncorrectFormat(FormatError::PuzzleId))));
    assert!(matches!(load_pzl_save(&lines(&["3:300"])), Err(LoadErr::IncorrectFormat(FormatError::Stars))));
    assert!(load_pzl_save(&Vec::new()).unwrap().is_empty());
}

#[test]
fn kill_counts() {
    let k = load_kills(&lines(&["e:3", "h:10", "e:4"])).unwrap();
    assert_eq!(k, vec![('e', 4), ('h', 10)]);
    assert!(matches!(load_kills(&lines(&[":3"])), Err(LoadErr::IncorrectFormat(FormatError::NoCharacter))));
    assert!(matches!(load_kills(&lines(&["e:x"])), Err(LoadErr::IncorrectFormat(FormatError::NoValue('e')))));
    assert_eq!(load_kills(&lines(&["q"])).unwrap(), Vec::new());
}

#[test]
fn won_flag() {
    assert!(load_won(&lines(&["yes"])));
    assert!(!load_won(&lines(&["no"])));
    assert!(!load_won(&lines(&["yes!"])));
    assert!(!load_won(&Vec::new()));
}

#[test]
fn descriptions() {
    let d = get_descs(&lines(&["e", "A grunt.", " Weak.", "", "h", "Heavy.", "", "x", "unfinished"])).unwrap();
    assert_eq!(d, vec![('e', chars("A grunt. Weak.")), ('h', chars("Heavy."))]);
    assert!(matches!(get_descs(&lines(&[""])), Err(LoadErr::IncorrectFormat(FormatError::NoCharacter))));
}

#[test]
fn metadata_table() {
    let m = get_metadata();
    assert_eq!(m.len(), 35);
    assert_eq!(m[0], ('e', TempMeta { cost: 12, floor_min: 0, floor_max: 0, max: 3 }));
    assert_eq!(m[34], ('\u{3a9}', TempMeta { cost: 100, floor_min: 5, floor_max: 5, max: 1 }));
}

#[test]
fn difficulty_codes() {
    assert_eq!(Difficulty::from_code(&chars("B")), Some(Difficulty::Beginner));
    assert_eq!(Difficulty::from_code(&chars("b")), Some(Difficulty::Bonus));
    assert_eq!(Difficulty::from_code(&chars("X")), None);
    assert_eq!(Difficulty::from_code(&chars("BB")), None);
    assert_eq!(Difficulty::Extreme.label(), "Extreme");
}

#[test]
fn glyphs() {
    let c = crossterm::style::Color::Red;
    let mut t = Tile::new_empty();
    t.revealed = false;
    assert_eq!(t.repr(c).ch, ' ');
    t.revealed = true;
    t.blocking = true;
    assert_eq!(t.repr(c).ch, '#');
    t.blocking = false;
    t.empt = false;
    assert_eq!(t.repr(c).ch, '.');
    let mut e = En::new(3, false, 2, Glyph::plain('e'), Special::Not, Vec::new(), AtkPat::empty(), false);
    assert_eq!(e.repr(1, c).bg, Some(c));
    assert_eq!(e.repr(0, c).bg, None);
    e.vel = Some(Point::new(1, 0));
    assert_eq!(e.repr(1, c).bg, None);
    e.dormant = true;
    assert_eq!(e.repr(1, c).ch, ' ');
}
