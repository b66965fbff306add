//! The text formats of the save files: lines of `key:value` pairs, parsed
//! from lines that the caller has read.

use vstd::prelude::*;
use std::collections::HashMap;

verus! {

broadcast use vstd::std_specs::hash::group_hash_axioms;

/// An I/O error kind, carried through unchanged.
#[verifier::external_type_specification]
#[verifier::external_body]
pub struct ExErrorKind(std::io::ErrorKind);

/// What is wrong with a save file's text.
#[derive(Clone, Copy, Debug, PartialEq, Eq, Structural)]
pub enum FormatError {
    /// A puzzle id is not a number.
    PuzzleId,
    /// A completion status is not a number from 0 to 255.
    Stars,
    /// A line names no character.
    NoCharacter,
    /// The value given for this character is not a number.
    NoValue(char),
}

/// An error that could occur while loading a file.
#[derive(Debug)]
pub enum LoadErr {
    NotFound,
    IncorrectFormat(FormatError),
    Cant(String),
    Other(std::io::ErrorKind),
}

pub open spec fn is_digit(c: char) -> bool {
    '0' <= c && c <= '9'
}

pub open spec fn digit_value(c: char) -> int {
    (c as u32) - 48
}

/// The number that a string of decimal digits spells.
pub open spec fn digits_value(s: Seq<char>) -> int
    decreases s.len(),
{
    if s.len() == 0 {
        0
    } else {
        10 * digits_value(s.drop_last()) + digit_value(s.last())
    }
}

/// The digits of an unsigned number: an optional `+` removed.
pub open spec fn unsigned_digits(s: Seq<char>) -> Seq<char> {
    if s.len() > 0 && s[0] == '+' {
        s.drop_first()
    } else {
        s
    }
}

/// The unsigned number, at most `max`, that `s` spells: an optional `+`
/// followed by one or more decimal digits.
pub open spec fn parse_unsigned_spec(s: Seq<char>, max: int) -> Option<int> {
    if all_digits(unsigned_digits(s)) && digits_value(unsigned_digits(s)) <= max {
        Some(digits_value(unsigned_digits(s)))
    } else {
        None
    }
}

/// One or more decimal digits.
pub open spec fn all_digits(d: Seq<char>) -> bool {
    d.len() > 0 && forall|i: int| 0 <= i < d.len() ==> is_digit(#[trigger] d[i])
}

proof fn lemma_digits_grow(s: Seq<char>, k: int)
    requires
        0 <= k <= s.len(),
        forall|i: int| 0 <= i < s.len() ==> is_digit(#[trigger] s[i]),
    ensures
        digits_value(s) >= digits_value(s.take(k)),
        digits_value(s.take(k)) >= 0,
    decreases s.len(),
{
    if k == s.len() {
        assert(s.take(k) =~= s);
        if s.len() > 0 {
            lemma_digits_grow(s.drop_last(), k - 1);
            assert(s.drop_last().take(k - 1) =~= s.drop_last());
        }
    } else {
        lemma_digits_grow(s.drop_last(), k);
        assert(s.drop_last().take(k) =~= s.take(k));
        lemma_digits_grow(s.drop_last(), s.len() - 1);
        assert(s.drop_last().take(s.len() - 1) =~= s.drop_last());
    }
}

/// Parses an unsigned decimal number of at most `max`.
pub fn parse_unsigned(s: &Vec<char>, max: u128) -> (r: Option<u128>)
    ensures
        r is Some <==> parse_unsigned_spec(s@, max as int) is Some,
        r is Some ==> r->Some_0 == parse_unsigned_spec(s@, max as int)->Some_0,
{
    let start: usize = if s.len() > 0 && s[0] == '+' {
        1
    } else {
        0
    };
    let ghost d = unsigned_digits(s@);
    assert(d =~= s@.skip(start as int));
    if start >= s.len() {
        return None;
    }
    let mut acc: u128 = 0;
    let mut i: usize = start;
    while i < s.len()
        invariant
            start <= i <= s@.len(),
            d == s@.skip(start as int),
            d == unsigned_digits(s@),
            forall|k: int| 0 <= k < i - start ==> is_digit(#[trigger] d[k]),
            acc == digits_value(d.take(i - start)),
            acc <= max,
        decreases s@.len() - i,
    {
        let c = s[i];
        assert(d[i - start] == c);
        if !('0' <= c && c <= '9') {
            assert(!is_digit(d[i - start]));
            assert(!all_digits(d));
            return None;
        }
        let v: u128 = (c as u32 - 48) as u128;
        assert(d.take(i - start + 1).drop_last() =~= d.take(i - start));
        if v > max || acc > (max - v) / 10 {
            proof {
                assert(digits_value(d.take(i - start + 1)) == 10 * acc + v);
                assert(parse_unsigned_spec(s@, max as int) is None) by {
                    if forall|k: int| 0 <= k < d.len() ==> is_digit(#[trigger] d[k]) {
                        lemma_digits_grow(d, i - start + 1);
                    }
                }
                if v <= max {
                    assert(10 * acc + v > max) by (nonlinear_arith)
                        requires acc > (max - v) / 10, v <= max;
                }
                assert(digits_value(d.take(i - start + 1)) > max);
                if forall|k: int| 0 <= k < d.len() ==> is_digit(#[trigger] d[k]) {
                    lemma_digits_grow(d, i - start + 1);
                }
            }
            return None;
        }
        acc = acc * 10 + v;
        i = i + 1;
    }
    assert(d.take(i - start) =~= d);
    Some(acc)
}

/// The pieces of `s` between colons, in order; one more than there are colons.
pub open spec fn split_colon(s: Seq<char>) -> Seq<Seq<char>>
    decreases s.len(),
{
    if s.len() == 0 {
        seq![seq![]]
    } else {
        let p = split_colon(s.drop_last());
        if s.last() == ':' {
            p.push(seq![])
        } else {
            p.update(p.len() - 1, p.last().push(s.last()))
        }
    }
}

proof fn lemma_split_nonempty(s: Seq<char>)
    ensures
        split_colon(s).len() >= 1,
    decreases s.len(),
{
    if s.len() > 0 {
        lemma_split_nonempty(s.drop_last());
    }
}

/// The contents of each vector.
pub open spec fn views(v: Seq<Vec<char>>) -> Seq<Seq<char>> {
    v.map_values(|x: Vec<char>| x@)
}

/// Splits `s` at each colon.
pub fn split_at_colons(s: &Vec<char>) -> (r: Vec<Vec<char>>)
    ensures
        views(r@) == split_colon(s@),
{
    let mut pieces: Vec<Vec<char>> = Vec::new();
    let mut cur: Vec<char> = Vec::new();
    let mut i: usize = 0;
    assert(views(pieces@).push(cur@) =~= split_colon(s@.take(0)));
    while i < s.len()
        invariant
            i <= s@.len(),
            views(pieces@).push(cur@) == split_colon(s@.take(i as int)),
        decreases s@.len() - i,
    {
        let c = s[i];
        proof {
            lemma_split_nonempty(s@.take(i as int));
        }
        assert(s@.take(i as int + 1).drop_last() =~= s@.take(i as int));
        if c == ':' {
            let done = cur;
            pieces.push(done);
            cur = Vec::new();
            assert(views(pieces@).push(cur@) =~= split_colon(s@.take(i as int + 1)));
        } else {
            cur.push(c);
            assert(views(pieces@).push(cur@) =~= split_colon(s@.take(i as int + 1)));
        }
        i = i + 1;
    }
    pieces.push(cur);
    assert(s@.take(i as int) =~= s@);
    assert(views(pieces@) =~= split_colon(s@));
    pieces
}

/// What one line `id:stars` of the puzzle save does to the completions `m`.
pub open spec fn pzl_line(m: Map<u128, u8>, line: Seq<char>) -> Result<Map<u128, u8>, FormatError> {
    let p = split_colon(line);
    match parse_unsigned_spec(p[0], u128::MAX as int) {
        None => Err(FormatError::PuzzleId),
        Some(id) => if p.len() < 2 {
            Ok(m)
        } else {
            match parse_unsigned_spec(p[1], 255) {
                None => Err(FormatError::Stars),
                Some(st) => Ok(m.insert(id as u128, st as u8)),
            }
        },
    }
}

/// The completions recorded by the lines of the puzzle save, in order.
pub open spec fn pzl_lines(lines: Seq<Seq<char>>) -> Result<Map<u128, u8>, FormatError>
    decreases lines.len(),
{
    if lines.len() == 0 {
        Ok(Map::empty())
    } else {
        match pzl_lines(lines.drop_last()) {
            Ok(m) => pzl_line(m, lines.last()),
            Err(e) => Err(e),
        }
    }
}

/// Reads the puzzle save: each line `id:stars` records the completion of
/// one puzzle, later lines overriding earlier ones; anything after a second
/// colon is ignored, and a line with no colon records nothing.
pub fn load_pzl_save(lines: &Vec<Vec<char>>) -> (r: Result<HashMap<u128, u8>, LoadErr>)
    ensures
        r is Ok <==> pzl_lines(views(lines@)) is Ok,
        r is Ok ==> r->Ok_0@ == pzl_lines(views(lines@))->Ok_0,
        r is Err ==> r->Err_0 == LoadErr::IncorrectFormat(pzl_lines(views(lines@))->Err_0),
{
    let mut map: HashMap<u128, u8> = HashMap::new();
    let mut i: usize = 0;
    assert(views(lines@).take(0) =~= Seq::<Seq<char>>::empty());
    while i < lines.len()
        invariant
            i <= lines@.len(),
            pzl_lines(views(lines@).take(i as int)) == Ok::<Map<u128, u8>, FormatError>(map@),
        decreases lines@.len() - i,
    {
        assert(views(lines@).take(i as int + 1).drop_last() =~= views(lines@).take(i as int));
        assert(views(lines@).take(i as int + 1).last() == lines@[i as int]@);
        let pieces = split_at_colons(&lines[i]);
        proof {
            lemma_split_nonempty(lines@[i as int]@);
        }
        assert(pieces@[0]@ == split_colon(lines@[i as int]@)[0]);
        let id = match parse_unsigned(&pieces[0], u128::MAX) {
            Some(id) => id,
            None => {
                assert(pzl_lines(views(lines@).take(i as int + 1)) == Err::<Map<u128, u8>, FormatError>(FormatError::PuzzleId));
                proof { lemma_pzl_err_stays(views(lines@), i as int + 1); }
                return Err(LoadErr::IncorrectFormat(FormatError::PuzzleId));
            },
        };
        if pieces.len() >= 2 {
            assert(pieces@[1]@ == split_colon(lines@[i as int]@)[1]);
            let st = match parse_unsigned(&pieces[1], 255) {
                Some(st) => st,
                None => {
                    assert(pzl_lines(views(lines@).take(i as int + 1)) == Err::<Map<u128, u8>, FormatError>(FormatError::Stars));
                    proof { lemma_pzl_err_stays(views(lines@), i as int + 1); }
                    return Err(LoadErr::IncorrectFormat(FormatError::Stars));
                },
            };
            map.insert(id, st as u8);
        }
        i = i + 1;
    }
    assert(views(lines@).take(i as int) =~= views(lines@));
    Ok(map)
}

/// Once a line is malformed, so is every longer run of lines.
proof fn lemma_pzl_err_stays(lines: Seq<Seq<char>>, k: int)
    requires
        0 <= k <= lines.len(),
        pzl_lines(lines.take(k)) is Err,
    ensures
        pzl_lines(lines) == pzl_lines(lines.take(k)),
    decreases lines.len() - k,
{
    if k < lines.len() {
        assert(lines.take(k + 1).drop_last() =~= lines.take(k));
        lemma_pzl_err_stays(lines, k + 1);
    } else {
        assert(lines.take(k) =~= lines);
    }
}

/// The map that a list of pairs stands for; later pairs override earlier ones.
pub open spec fn pairs_map<V>(v: Seq<(char, V)>) -> Map<char, V>
    decreases v.len(),
{
    if v.len() == 0 {
        Map::empty()
    } else {
        pairs_map(v.drop_last()).insert(v.last().0, v.last().1)
    }
}

/// No two pairs share a key.
pub open spec fn unique_keys<V>(v: Seq<(char, V)>) -> bool {
    forall|i: int, j: int| 0 <= i < j < v.len() ==> v[i].0 != v[j].0
}

proof fn lemma_pairs_update<V>(v: Seq<(char, V)>, j: int, val: V)
    requires
        unique_keys(v),
        0 <= j < v.len(),
    ensures
        pairs_map(v.update(j, (v[j].0, val))) == pairs_map(v).insert(v[j].0, val),
    decreases v.len(),
{
    let k = v[j].0;
    let w = v.update(j, (k, val));
    if j == v.len() - 1 {
        assert(w.drop_last() =~= v.drop_last());
        assert(pairs_map(w) =~= pairs_map(v).insert(k, val));
    } else {
        assert(w.drop_last() =~= v.drop_last().update(j, (k, val)));
        lemma_pairs_update(v.drop_last(), j, val);
        assert(v.last().0 != k);
        assert(pairs_map(w) =~= pairs_map(v).insert(k, val));
    }
}

/// Sets `k` to `val` in the pairs, keeping keys unique.
fn put_pair<V>(v: &mut Vec<(char, V)>, k: char, val: V)
    requires
        unique_keys(old(v)@),
    ensures
        unique_keys(final(v)@),
        pairs_map(final(v)@) == pairs_map(old(v)@).insert(k, val),
{
    let mut j: usize = 0;
    while j < v.len()
        invariant
            j <= v@.len(),
            v@ == old(v)@,
            unique_keys(v@),
            forall|m: int| 0 <= m < j ==> v@[m].0 != k,
        decreases v@.len() - j,
    {
        if v[j].0 == k {
            proof {
                lemma_pairs_update(v@, j as int, val);
            }
            v.set(j, (k, val));
            return;
        }
        j = j + 1;
    }
    v.push((k, val));
    assert(v@.drop_last() =~= old(v)@);
}

/// What the pieces after the character of one kill-count line do to `m`.
pub open spec fn kill_pieces(m: Map<char, u32>, ch: char, ps: Seq<Seq<char>>) -> Result<Map<char, u32>, FormatError>
    decreases ps.len(),
{
    if ps.len() == 0 {
        Ok(m)
    } else {
        match kill_pieces(m, ch, ps.drop_last()) {
            Ok(m2) => match parse_unsigned_spec(ps.last(), u32::MAX as int) {
                Some(n) => Ok(m2.insert(ch, n as u32)),
                None => Err(FormatError::NoValue(ch)),
            },
            Err(e) => Err(e),
        }
    }
}

/// What one kill-count line `c:n` does to the counts `m`.
pub open spec fn kill_line(m: Map<char, u32>, line: Seq<char>) -> Result<Map<char, u32>, FormatError> {
    let p = split_colon(line);
    if p[0].len() == 0 {
        Err(FormatError::NoCharacter)
    } else {
        kill_pieces(m, p[0][0], p.drop_first())
    }
}

/// The kill counts that the lines record, in order.
pub open spec fn kill_lines(lines: Seq<Seq<char>>) -> Result<Map<char, u32>, FormatError>
    decreases lines.len(),
{
    if lines.len() == 0 {
        Ok(Map::empty())
    } else {
        match kill_lines(lines.drop_last()) {
            Ok(m) => kill_line(m, lines.last()),
            Err(e) => Err(e),
        }
    }
}

proof fn lemma_kill_err_stays(lines: Seq<Seq<char>>, k: int)
    requires
        0 <= k <= lines.len(),
        kill_lines(lines.take(k)) is Err,
    ensures
        kill_lines(lines) == kill_lines(lines.take(k)),
    decreases lines.len() - k,
{
    if k < lines.len() {
        assert(lines.take(k + 1).drop_last() =~= lines.take(k));
        lemma_kill_err_stays(lines, k + 1);
    } else {
        assert(lines.take(k) =~= lines);
    }
}

proof fn lemma_pieces_err_stays(m: Map<char, u32>, ch: char, ps: Seq<Seq<char>>, k: int)
    requires
        0 <= k <= ps.len(),
        kill_pieces(m, ch, ps.take(k)) is Err,
    ensures
        kill_pieces(m, ch, ps) == kill_pieces(m, ch, ps.take(k)),
    decreases ps.len() - k,
{
    if k < ps.len() {
        assert(ps.take(k + 1).drop_last() =~= ps.take(k));
        lemma_pieces_err_stays(m, ch, ps, k + 1);
    } else {
        assert(ps.take(k) =~= ps);
    }
}

/// Reads the kill counts: each line is a character, then for each further
/// colon-separated piece a count recorded for it, later ones overriding.
/// A line with no character, or a piece that is not a count, is an error.
pub fn load_kills(lines: &Vec<Vec<char>>) -> (r: Result<Vec<(char, u32)>, LoadErr>)
    ensures
        r is Ok <==> kill_lines(views(lines@)) is Ok,
        r is Ok ==> unique_keys(r->Ok_0@) && pairs_map(r->Ok_0@) == kill_lines(views(lines@))->Ok_0,
        r is Err ==> r->Err_0 == LoadErr::IncorrectFormat(kill_lines(views(lines@))->Err_0),
{
    let mut kills: Vec<(char, u32)> = Vec::new();
    let mut i: usize = 0;
    assert(views(lines@).take(0) =~= Seq::<Seq<char>>::empty());
    while i < lines.len()
        invariant
            i <= lines@.len(),
            unique_keys(kills@),
            kill_lines(views(lines@).take(i as int)) == Ok::<Map<char, u32>, FormatError>(pairs_map(kills@)),
        decreases lines@.len() - i,
    {
        let ghost all = views(lines@);
        assert(all.take(i as int + 1).drop_last() =~= all.take(i as int));
        assert(all.take(i as int + 1).last() == lines@[i as int]@);
        let pieces = split_at_colons(&lines[i]);
        proof {
            lemma_split_nonempty(lines@[i as int]@);
        }
        let ghost ps = views(pieces@);
        assert(ps == split_colon(lines@[i as int]@));
        assert(all[i as int] == lines@[i as int]@);
        if pieces[0].len() == 0 {
            proof { lemma_kill_err_stays(all, i as int + 1); }
            return Err(LoadErr::IncorrectFormat(FormatError::NoCharacter));
        }
        let ch = pieces[0][0];
        assert(ps[0][0] == ch);
        let ghost m0 = pairs_map(kills@);
        let ghost rest = ps.drop_first();
        let mut n: usize = 1;
        assert(rest.take(0) =~= Seq::<Seq<char>>::empty());
        while n < pieces.len()
            invariant
                1 <= n <= pieces@.len(),
                i < lines@.len(),
                all == views(lines@),
                ps == split_colon(all[i as int]),
                ps[0].len() > 0,
                ps[0][0] == ch,
                kill_lines(all.take(i as int)) == Ok::<Map<char, u32>, FormatError>(m0),
                all.take(i as int + 1).drop_last() == all.take(i as int),
                all.take(i as int + 1).last() == all[i as int],
                ps == views(pieces@),
                rest == ps.drop_first(),
                unique_keys(kills@),
                kill_pieces(m0, ch, rest.take(n - 1)) == Ok::<Map<char, u32>, FormatError>(pairs_map(kills@)),
            decreases pieces@.len() - n,
        {
            assert(rest.take(n as int).drop_last() =~= rest.take(n - 1));
            assert(rest.take(n as int).last() == pieces@[n as int]@);
            match parse_unsigned(&pieces[n], u32::MAX as u128) {
                Some(v) => {
                    put_pair(&mut kills, ch, v as u32);
                },
                None => {
                    proof {
                        lemma_pieces_err_stays(m0, ch, rest, n as int);
                        assert(kill_line(m0, all[i as int]) == Err::<Map<char, u32>, FormatError>(FormatError::NoValue(ch)));
                        lemma_kill_err_stays(all, i as int + 1);
                    }
                    return Err(LoadErr::IncorrectFormat(FormatError::NoValue(ch)));
                },
            }
            n = n + 1;
        }
        assert(rest.take(n - 1) =~= rest);
        i = i + 1;
    }
    assert(views(lines@).take(i as int) =~= views(lines@));
    Ok(kills)
}

/// Reading the descriptions file: the descriptions finished so far, and the
/// one being read, if any, with its character.
pub type DescState = (Map<char, Seq<char>>, Option<(char, Seq<char>)>);

/// What one line of the descriptions file does. A line naming a character
/// starts a description; the lines after it are joined into the description
/// until an empty line finishes it.
pub open spec fn desc_line(st: DescState, line: Seq<char>) -> Result<DescState, FormatError> {
    match st.1 {
        None => if line.len() == 0 {
            Err(FormatError::NoCharacter)
        } else {
            Ok((st.0, Some((line[0], Seq::<char>::empty()))))
        },
        Some((c, d)) => if line.len() == 0 {
            Ok((st.0.insert(c, d), None))
        } else {
            Ok((st.0, Some((c, d + line))))
        },
    }
}

/// The state after reading the lines in order.
pub open spec fn desc_lines(lines: Seq<Seq<char>>) -> Result<DescState, FormatError>
    decreases lines.len(),
{
    if lines.len() == 0 {
        Ok((Map::empty(), None))
    } else {
        match desc_lines(lines.drop_last()) {
            Ok(st) => desc_line(st, lines.last()),
            Err(e) => Err(e),
        }
    }
}

proof fn lemma_desc_err_stays(lines: Seq<Seq<char>>, k: int)
    requires
        0 <= k <= lines.len(),
        desc_lines(lines.take(k)) is Err,
    ensures
        desc_lines(lines) == desc_lines(lines.take(k)),
    decreases lines.len() - k,
{
    if k < lines.len() {
        assert(lines.take(k + 1).drop_last() =~= lines.take(k));
        lemma_desc_err_stays(lines, k + 1);
    } else {
        assert(lines.take(k) =~= lines);
    }
}

/// The map of vectors `a` holds the contents that `b` maps to.
pub open spec fn same_texts(a: Map<char, Vec<char>>, b: Map<char, Seq<char>>) -> bool {
    &&& a.dom() == b.dom()
    &&& forall|k: char| #[trigger] a.contains_key(k) ==> a[k]@ == b[k]
}

/// Reads the descriptions of the enemies: a line whose first character names
/// an enemy, then its description over one or more lines, joined, ended by an
/// empty line; a description still open at the end is dropped. A line that
/// should name a character but is empty is an error.
pub fn get_descs(lines: &Vec<Vec<char>>) -> (r: Result<Vec<(char, Vec<char>)>, LoadErr>)
    ensures
        r is Ok <==> desc_lines(views(lines@)) is Ok,
        r is Ok ==> unique_keys(r->Ok_0@) && same_texts(pairs_map(r->Ok_0@), desc_lines(views(lines@))->Ok_0.0),
        r is Err ==> r->Err_0 == LoadErr::IncorrectFormat(desc_lines(views(lines@))->Err_0),
{
    let mut descs: Vec<(char, Vec<char>)> = Vec::new();
    let mut cur: Option<(char, Vec<char>)> = None;
    let mut i: usize = 0;
    let ghost all = views(lines@);
    assert(all.take(0) =~= Seq::<Seq<char>>::empty());
    assert(same_texts(pairs_map(descs@), Map::empty()));
    while i < lines.len()
        invariant
            i <= lines@.len(),
            all == views(lines@),
            unique_keys(descs@),
            desc_lines(all.take(i as int)) is Ok,
            same_texts(pairs_map(descs@), desc_lines(all.take(i as int))->Ok_0.0),
            match desc_lines(all.take(i as int))->Ok_0.1 {
                None => cur is None,
                Some((c, d)) => cur is Some && cur->Some_0.0 == c && cur->Some_0.1@ == d,
            },
        decreases lines@.len() - i,
    {
        assert(all.take(i as int + 1).drop_last() =~= all.take(i as int));
        assert(all.take(i as int + 1).last() == lines@[i as int]@);
        let ghost st = desc_lines(all.take(i as int))->Ok_0;
        let line = &lines[i];
        match cur {
            None => {
                if line.len() == 0 {
                    proof {
                        lemma_desc_err_stays(all, i as int + 1);
                    }
                    return Err(LoadErr::IncorrectFormat(FormatError::NoCharacter));
                }
                cur = Some((line[0], Vec::new()));
                assert(cur->Some_0.1@ =~= Seq::<char>::empty());
            },
            Some((c, mut d)) => {
                if line.len() == 0 {
                    let ghost old_map = pairs_map(descs@);
                    let ghost dv = d@;
                    put_pair(&mut descs, c, d);
                    assert(same_texts(pairs_map(descs@), st.0.insert(c, dv))) by {
                        assert(pairs_map(descs@).dom() =~= st.0.insert(c, dv).dom());
                    }
                    cur = None;
                } else {
                    let mut k: usize = 0;
                    let ghost d0 = d@;
                    while k < line.len()
                        invariant
                            k <= line@.len(),
                            d@ == d0 + line@.take(k as int),
                        decreases line@.len() - k,
                    {
                        d.push(line[k]);
                        k = k + 1;
                        assert(d@ =~= d0 + line@.take(k as int));
                    }
                    assert(line@.take(k as int) =~= line@);
                    cur = Some((c, d));
                }
            },
        }
        i = i + 1;
    }
    assert(all.take(i as int) =~= all);
    Ok(descs)
}

/// Whether the "won yet" save says yes: its first line is exactly `yes`.
pub fn load_won(lines: &Vec<Vec<char>>) -> (r: bool)
    ensures
        r == (lines@.len() > 0 && lines@[0]@ == seq!['y', 'e', 's']),
{
    if lines.len() == 0 {
        return false;
    }
    let l = &lines[0];
    let r = l.len() == 3 && l[0] == 'y' && l[1] == 'e' && l[2] == 's';
    assert(r ==> l@ =~= seq!['y', 'e', 's']);
    r
}

} // verus!
