use vstd::multiset::Multiset;
use vstd::prelude::*;
use vstd::string::StrSliceExecFns;
use vstd::string::StringExecFns;

verus! {

/// Whether an offered score entered the board as a new personal best.
#[derive(Clone, Copy, PartialEq, Eq, Structural, Debug)]
pub enum ScoreUpdated {
    NewHighScore,
    NotImproved,
}

/// The mathematical content of one high-score entry.
pub struct HighScoreModel {
    pub username: Seq<char>,
    pub score: int,
}

/// One high-score entry: a player name and that player's best score.
#[derive(Clone, Debug)]
pub struct HighScore {
    pub username: String,
    pub score: i32,
}

impl View for HighScore {
    type V = HighScoreModel;

    open spec fn view(&self) -> HighScoreModel {
        HighScoreModel { username: self.username@, score: self.score as int }
    }
}

/// The table of best scores, kept sorted from best to worst, together with
/// the display string the front end shows for it.
pub struct ScoreBoard {
    pub highscores: Vec<HighScore>,
    pub formatted_highscores: String,
}

/// The entries of a score list, as models.
pub open spec fn entries(v: Seq<HighScore>) -> Seq<HighScoreModel> {
    v.map_values(|h: HighScore| h@)
}

/// The string with every NUL character removed. Names and the display
/// string are cleaned of NULs, the byte that fixed-size text buffers of
/// graphical front ends pad their fields with.
pub open spec fn strip_nul(s: Seq<char>) -> Seq<char>
    decreases s.len(),
{
    if s.len() == 0 {
        Seq::empty()
    } else {
        strip_nul(s.drop_last()) + (if s.last() == '\0' {
            Seq::<char>::empty()
        } else {
            seq![s.last()]
        })
    }
}

/// An offered player name is stored with its NUL characters removed; a name
/// that is empty once cleaned is recorded under "unknown".
pub open spec fn sanitize(u: Seq<char>) -> Seq<char> {
    if strip_nul(u).len() == 0 {
        "unknown"@
    } else {
        strip_nul(u)
    }
}

/// Scores run from best to worst.
pub open spec fn sorted_desc(e: Seq<HighScoreModel>) -> bool {
    forall|a: int, b: int| 0 <= a < b < e.len() ==> e[a].score >= e[b].score
}

/// `k` is the first entry carrying this player name.
pub open spec fn is_first_match(e: Seq<HighScoreModel>, u: Seq<char>, k: int) -> bool {
    &&& 0 <= k < e.len()
    &&& e[k].username == u
    &&& forall|t: int| 0 <= t < k ==> (#[trigger] e[t]).username != u
}

/// The player's recorded best, or 0 for a player with no entry.
pub open spec fn user_score(e: Seq<HighScoreModel>, u: Seq<char>) -> int {
    if exists|k: int| is_first_match(e, u, k) {
        e[choose|k: int| is_first_match(e, u, k)].score
    } else {
        0
    }
}

/// Whether offering `s` under name `u` improves the board: always for a new
/// player, else only beyond the player's recorded best.
pub open spec fn improves(e: Seq<HighScoreModel>, u: Seq<char>, s: int) -> bool {
    if exists|k: int| is_first_match(e, u, k) {
        s > e[choose|k: int| is_first_match(e, u, k)].score
    } else {
        true
    }
}

/// The entry list after offering `s` under name `u`: a new entry for a new
/// player, the player's entry rewritten when improved, untouched otherwise.
pub open spec fn update_entries(e: Seq<HighScoreModel>, u: Seq<char>, s: int) -> Seq<
    HighScoreModel,
> {
    if exists|k: int| is_first_match(e, u, k) {
        let k = choose|k: int| is_first_match(e, u, k);
        if s > e[k].score {
            e.update(k, HighScoreModel { username: u, score: s })
        } else {
            e
        }
    } else {
        e.push(HighScoreModel { username: u, score: s })
    }
}

/// The decimal digit characters of a non-negative number.
pub open spec fn dec_digits(n: int) -> Seq<char>
    decreases n,
{
    if n < 10 {
        seq![digit_char(n)]
    } else {
        dec_digits(n / 10).push(digit_char(n % 10))
    }
}

/// The character for one decimal digit.
pub open spec fn digit_char(d: int) -> char {
    if d == 0 {
        '0'
    } else if d == 1 {
        '1'
    } else if d == 2 {
        '2'
    } else if d == 3 {
        '3'
    } else if d == 4 {
        '4'
    } else if d == 5 {
        '5'
    } else if d == 6 {
        '6'
    } else if d == 7 {
        '7'
    } else if d == 8 {
        '8'
    } else {
        '9'
    }
}

/// The decimal rendering of an integer, minus sign included.
pub open spec fn int_str(n: int) -> Seq<char> {
    if n < 0 {
        seq!['-'] + dec_digits(-n)
    } else {
        dec_digits(n)
    }
}

/// One display line: `name: score`.
pub open spec fn line_of(h: HighScoreModel) -> Seq<char> {
    h.username + ": "@ + int_str(h.score)
}

/// The display lines of all entries, joined by the delimiter.
pub open spec fn joined_lines(e: Seq<HighScoreModel>, delim: Seq<char>) -> Seq<char>
    decreases e.len(),
{
    if e.len() == 0 {
        Seq::empty()
    } else if e.len() == 1 {
        line_of(e[0])
    } else {
        line_of(e[0]) + delim + joined_lines(e.drop_first(), delim)
    }
}

/// The whole display string: the joined lines with every NUL character
/// removed, or a placeholder while the board is empty. (A board with
/// entries always renders some visible text: every line keeps its `:`.)
pub open spec fn spec_formatted(e: Seq<HighScoreModel>, delim: Seq<char>) -> Seq<char> {
    if e.len() == 0 {
        "no highscores yet"@
    } else {
        strip_nul(joined_lines(e, delim))
    }
}

/// The value of a decimal digit character, or -1 for any other character.
pub open spec fn digit_val(c: char) -> int {
    if c == '0' {
        0
    } else if c == '1' {
        1
    } else if c == '2' {
        2
    } else if c == '3' {
        3
    } else if c == '4' {
        4
    } else if c == '5' {
        5
    } else if c == '6' {
        6
    } else if c == '7' {
        7
    } else if c == '8' {
        8
    } else if c == '9' {
        9
    } else {
        -1
    }
}

/// Whether a character is a decimal digit.
pub open spec fn is_digit(c: char) -> bool {
    digit_val(c) >= 0
}

/// Whether every character of the sequence is a decimal digit.
pub open spec fn all_digits(s: Seq<char>) -> bool {
    forall|t: int| 0 <= t < s.len() ==> is_digit(#[trigger] s[t])
}

/// The number a digit sequence denotes.
pub open spec fn digits_val(s: Seq<char>) -> int
    decreases s.len(),
{
    if s.len() == 0 {
        0
    } else {
        digits_val(s.drop_last()) * 10 + digit_val(s.last())
    }
}

/// What an integer literal denotes: an optional minus sign followed by at
/// least one digit. Anything else denotes nothing.
pub open spec fn parse_int_spec(s: Seq<char>) -> Option<int> {
    if s.len() >= 2 && s[0] == '-' && all_digits(s.subrange(1, s.len() as int)) {
        Option::Some(-digits_val(s.subrange(1, s.len() as int)))
    } else if s.len() >= 1 && all_digits(s) {
        Option::Some(digits_val(s))
    } else {
        Option::None
    }
}

/// What an integer literal denotes as an i32: nothing when out of range.
pub open spec fn parse_i32_spec(s: Seq<char>) -> Option<int> {
    match parse_int_spec(s) {
        Option::Some(v) => if i32::MIN <= v <= i32::MAX {
            Option::Some(v)
        } else {
            Option::None
        },
        Option::None => Option::None,
    }
}

/// `k` is the position of the first `": "` separator.
pub open spec fn is_first_sep(s: Seq<char>, k: int) -> bool {
    &&& 0 <= k && k + 2 <= s.len()
    &&& s[k] == ':' && s[k + 1] == ' '
    &&& forall|t: int| 0 <= t < k ==> !((#[trigger] s[t]) == ':' && s[t + 1] == ' ')
}

/// What one stored line denotes: the name before the first `": "` separator
/// and the score after it, or nothing if the line has no separator or no
/// in-range score.
pub open spec fn parse_line_spec(s: Seq<char>) -> Option<HighScoreModel> {
    if exists|k: int| is_first_sep(s, k) {
        let k = choose|k: int| is_first_sep(s, k);
        match parse_i32_spec(s.subrange(k + 2, s.len() as int)) {
            Option::Some(v) => Option::Some(
                HighScoreModel { username: s.subrange(0, k), score: v },
            ),
            Option::None => Option::None,
        }
    } else {
        Option::None
    }
}

/// The stored form of the whole board: one `name: score` line per entry,
/// each ended by a newline.
pub open spec fn file_content(e: Seq<HighScoreModel>) -> Seq<char>
    decreases e.len(),
{
    if e.len() == 0 {
        Seq::empty()
    } else {
        line_of(e[0]) + "\n"@ + file_content(e.drop_first())
    }
}

/// Only one entry can be the first match for a name.
proof fn lemma_first_match_unique(e: Seq<HighScoreModel>, u: Seq<char>, k1: int, k2: int)
    requires
        is_first_match(e, u, k1),
        is_first_match(e, u, k2),
    ensures
        k1 == k2,
{
    if k1 < k2 {
        assert(e[k1].username != u);
    } else if k2 < k1 {
        assert(e[k2].username != u);
    }
}

/// Inserting an element anywhere adds exactly it to the sequence's multiset.
proof fn lemma_to_multiset_insert(s: Seq<HighScoreModel>, i: int, a: HighScoreModel)
    requires
        0 <= i <= s.len(),
    ensures
        s.insert(i, a).to_multiset() == s.to_multiset().insert(a),
{
    broadcast use vstd::seq_lib::group_to_multiset_ensures;
    broadcast use vstd::multiset::group_multiset_axioms;

    let left = s.subrange(0, i);
    let right = s.subrange(i, s.len() as int);
    assert(s.insert(i, a) =~= (left + seq![a]) + right);
    assert(s =~= left + right);
    vstd::seq_lib::lemma_multiset_commutative(left + seq![a], right);
    vstd::seq_lib::lemma_multiset_commutative(left, seq![a]);
    vstd::seq_lib::lemma_multiset_commutative(left, right);
    assert(seq![a] =~= Seq::<HighScoreModel>::empty().push(a));
    assert(Seq::<HighScoreModel>::empty().to_multiset() =~= Multiset::<HighScoreModel>::empty());
    assert(seq![a].to_multiset() =~= Multiset::<HighScoreModel>::empty().insert(a));
    assert(s.insert(i, a).to_multiset() =~= s.to_multiset().insert(a));
}

/// Moving an element one place to the left leaves the multiset unchanged.
proof fn lemma_move_left(e: Seq<HighScoreModel>, j: int)
    requires
        1 <= j < e.len(),
    ensures
        e.remove(j).insert(j - 1, e[j]).to_multiset() == e.to_multiset(),
{
    broadcast use vstd::seq_lib::group_to_multiset_ensures;
    broadcast use vstd::multiset::group_multiset_axioms;

    lemma_to_multiset_insert(e.remove(j), j - 1, e[j]);
    assert(e.contains(e[j]));
    assert(e.remove(j).insert(j - 1, e[j]).to_multiset() =~= e.to_multiset());
}

/// Joining one more entry appends one more line, after a delimiter once the
/// string is non-empty.
proof fn lemma_joined_push(e: Seq<HighScoreModel>, x: HighScoreModel, delim: Seq<char>)
    ensures
        joined_lines(e.push(x), delim) == if e.len() == 0 {
            line_of(x)
        } else {
            joined_lines(e, delim) + delim + line_of(x)
        },
    decreases e.len(),
{
    if e.len() == 0 {
        assert(e.push(x)[0] == x);
        assert(e.push(x).len() == 1);
    } else {
        assert(e.push(x)[0] == e[0]);
        assert(e.push(x).drop_first() =~= e.drop_first().push(x));
        lemma_joined_push(e.drop_first(), x, delim);
        if e.len() == 1 {
            assert(joined_lines(e, delim) == line_of(e[0]));
        } else {
            assert((line_of(e[0]) + delim + joined_lines(e.drop_first(), delim)) + delim + line_of(
                x,
            ) =~= line_of(e[0]) + delim + (joined_lines(e.drop_first(), delim) + delim + line_of(
                x,
            )));
        }
    }
}

/// Only one position can carry the first separator.
proof fn lemma_first_sep_unique(s: Seq<char>, k1: int, k2: int)
    requires
        is_first_sep(s, k1),
        is_first_sep(s, k2),
    ensures
        k1 == k2,
{
    if k1 < k2 {
        assert(!(s[k1] == ':' && s[k1 + 1] == ' '));
    } else if k2 < k1 {
        assert(!(s[k2] == ':' && s[k2 + 1] == ' '));
    }
}

/// A digit sequence denotes a number at least 0.
proof fn lemma_digits_val_nonneg(s: Seq<char>)
    requires
        all_digits(s),
    ensures
        digits_val(s) >= 0,
    decreases s.len(),
{
    if s.len() == 0 {
    } else {
        assert(all_digits(s.drop_last()));
        lemma_digits_val_nonneg(s.drop_last());
        assert(digits_val(s.drop_last()) * 10 >= digits_val(s.drop_last())) by (nonlinear_arith)
            requires
                digits_val(s.drop_last()) >= 0,
        ;
        assert(is_digit(s.last()));
    }
}

/// Every prefix of a digit sequence denotes no more than the whole.
proof fn lemma_digits_val_prefix_le(s: Seq<char>, k: int)
    requires
        all_digits(s),
        0 <= k <= s.len(),
    ensures
        digits_val(s.subrange(0, k)) <= digits_val(s),
    decreases s.len() - k,
{
    if k == s.len() {
        assert(s.subrange(0, k) =~= s);
    } else {
        let p1 = s.subrange(0, k + 1);
        assert(p1.drop_last() =~= s.subrange(0, k));
        assert(all_digits(s.subrange(0, k)));
        lemma_digits_val_nonneg(s.subrange(0, k));
        assert(digits_val(s.subrange(0, k)) * 10 >= digits_val(s.subrange(0, k)))
            by (nonlinear_arith)
            requires
                digits_val(s.subrange(0, k)) >= 0,
        ;
        assert(is_digit(p1.last()));
        assert(digits_val(p1) >= digits_val(s.subrange(0, k)));
        lemma_digits_val_prefix_le(s, k + 1);
    }
}

/// Storing one more entry appends exactly its line and a newline.
proof fn lemma_file_push(e: Seq<HighScoreModel>, x: HighScoreModel)
    ensures
        file_content(e.push(x)) == file_content(e) + line_of(x) + "\n"@,
    decreases e.len(),
{
    if e.len() == 0 {
        assert(e.push(x)[0] == x);
        assert(e.push(x).drop_first() =~= e);
        assert(file_content(e.push(x)) =~= file_content(e) + line_of(x) + "\n"@);
    } else {
        assert(e.push(x)[0] == e[0]);
        assert(e.push(x).drop_first() =~= e.drop_first().push(x));
        lemma_file_push(e.drop_first(), x);
        assert(line_of(e[0]) + "\n"@ + (file_content(e.drop_first()) + line_of(x) + "\n"@)
            =~= (line_of(e[0]) + "\n"@ + file_content(e.drop_first())) + line_of(x) + "\n"@);
    }
}

/// The digit value of a character, when it is one.
fn digit_of(c: char) -> (r: Option<u64>)
    ensures
        r is Some <==> is_digit(c),
        r matches Some(d) ==> d as int == digit_val(c) && d < 10,
{
    if c == '0' {
        Some(0)
    } else if c == '1' {
        Some(1)
    } else if c == '2' {
        Some(2)
    } else if c == '3' {
        Some(3)
    } else if c == '4' {
        Some(4)
    } else if c == '5' {
        Some(5)
    } else if c == '6' {
        Some(6)
    } else if c == '7' {
        Some(7)
    } else if c == '8' {
        Some(8)
    } else if c == '9' {
        Some(9)
    } else {
        None
    }
}

/// Reads an integer literal: an optional minus sign and at least one digit,
/// denoting a number that fits an i32.
pub fn parse_i32(s: &str) -> (r: Option<i32>)
    ensures
        match r {
            Option::Some(v) => parse_i32_spec(s@) == Option::Some(v as int),
            Option::None => parse_i32_spec(s@) is None,
        },
{
    let n = s.unicode_len();
    if n == 0 {
        return None;
    }
    let neg = s.get_char(0) == '-';
    let start: usize = if neg {
        1
    } else {
        0
    };
    if n <= start {
        return None;
    }
    let ghost digits = s@.subrange(start as int, n as int);
    let mut mag: i64 = 0;
    let mut i: usize = start;
    while i < n
        invariant
            start <= i <= n,
            n == s@.len(),
            start <= 1,
            n > start,
            neg == (s@[0] == '-'),
            start == (if neg {
                1int
            } else {
                0int
            }),
            digits == s@.subrange(start as int, n as int),
            all_digits(s@.subrange(start as int, i as int)),
            mag == digits_val(s@.subrange(start as int, i as int)),
            0 <= mag <= 2147483648,
        decreases n - i,
    {
        let c = s.get_char(i);
        let d = match digit_of(c) {
            Some(d) => d,
            None => {
                proof {
                    assert(digits[i - start] == s@[i as int]);
                    assert(!is_digit(digits[i - start]));
                    assert(!all_digits(digits));
                    if !neg {
                        assert(s@.subrange(0, n as int) =~= s@);
                    }
                    assert(parse_int_spec(s@) is None);
                }
                return None;
            },
        };
        proof {
            assert(s@.subrange(start as int, i + 1).drop_last() =~= s@.subrange(
                start as int,
                i as int,
            ));
            assert(s@.subrange(start as int, i + 1).last() == s@[i as int]);
        }
        mag = mag * 10 + d as i64;
        if mag > 2147483648 {
            proof {
                let prefix = s@.subrange(start as int, i + 1);
                if all_digits(digits) {
                    assert(prefix =~= digits.subrange(0, i + 1 - start));
                    lemma_digits_val_prefix_le(digits, i + 1 - start);
                    assert(digits_val(digits) > 2147483648);
                }
                if !neg {
                    assert(s@.subrange(0, n as int) =~= s@);
                }
            }
            return None;
        }
        i += 1;
    }
    proof {
        assert(digits =~= s@.subrange(start as int, i as int));
    }
    if neg {
        let v: i64 = -mag;
        proof {
            assert(s@[0] == '-');
            assert(parse_int_spec(s@) == Option::Some(-digits_val(digits)));
        }
        Some(v as i32)
    } else {
        proof {
            assert(s@.subrange(0, n as int) =~= s@);
            assert(parse_int_spec(s@) == Option::Some(digits_val(digits)));
        }
        if mag > 2147483647 {
            return None;
        }
        Some(mag as i32)
    }
}

/// Reads one stored line, `name: score`: the name is whatever stands before
/// the first `": "`, the score the integer after it. Lines of any other
/// shape denote nothing.
pub fn parse_highscore_line(line: &str) -> (r: Option<HighScore>)
    ensures
        match r {
            Option::Some(h) => parse_line_spec(line@) == Option::Some(h@),
            Option::None => parse_line_spec(line@) is None,
        },
{
    let n = line.unicode_len();
    let mut k: usize = 0;
    while k < n && k + 1 < n
        invariant
            k <= n,
            n == line@.len(),
            forall|t: int| 0 <= t < k ==> !((#[trigger] line@[t]) == ':' && line@[t + 1] == ' '),
        decreases n - k,
    {
        if line.get_char(k) == ':' && line.get_char(k + 1) == ' ' {
            proof {
                assert(is_first_sep(line@, k as int));
                lemma_first_sep_unique(
                    line@,
                    k as int,
                    choose|t: int| is_first_sep(line@, t),
                );
            }
            let name = line.substring_char(0, k).to_owned();
            let rest = line.substring_char(k + 2, n);
            return match parse_i32(rest) {
                Some(v) => Some(HighScore { username: name, score: v }),
                None => None,
            };
        }
        k += 1;
    }
    proof {
        if exists|t: int| is_first_sep(line@, t) {
            let t = choose|t: int| is_first_sep(line@, t);
            assert(!(line@[t] == ':' && line@[t + 1] == ' '));
        }
    }
    None
}

/// A copy of the string with every NUL character removed.
fn strip_nul_str(s: &str) -> (r: String)
    ensures
        r@ == strip_nul(s@),
{
    let n = s.unicode_len();
    let mut out = String::new();
    let mut i: usize = 0;
    while i < n
        invariant
            i <= n,
            n == s@.len(),
            out@ == strip_nul(s@.subrange(0, i as int)),
        decreases n - i,
    {
        let c = s.get_char(i);
        if c != '\0' {
            out.append(s.substring_char(i, i + 1));
        }
        proof {
            assert(s@.subrange(0, i + 1).drop_last() =~= s@.subrange(0, i as int));
            assert(s@.subrange(0, i + 1).last() == s@[i as int]);
            if c != '\0' {
                assert(s@.subrange(i as int, i + 1) =~= seq![s@[i as int]]);
                assert(out@ =~= strip_nul(s@.subrange(0, i + 1)));
            } else {
                assert(out@ =~= strip_nul(s@.subrange(0, i + 1)));
            }
        }
        i += 1;
    }
    proof {
        assert(s@.subrange(0, n as int) =~= s@);
    }
    out
}

/// The string for one decimal digit.
fn digit_str(d: u64) -> (s: &'static str)
    requires
        d < 10,
    ensures
        s@ == seq![digit_char(d as int)],
{
    proof {
        reveal_strlit("0");
        reveal_strlit("1");
        reveal_strlit("2");
        reveal_strlit("3");
        reveal_strlit("4");
        reveal_strlit("5");
        reveal_strlit("6");
        reveal_strlit("7");
        reveal_strlit("8");
        reveal_strlit("9");
    }
    if d == 0 {
        assert("0"@ =~= seq![digit_char(0)]);
        "0"
    } else if d == 1 {
        assert("1"@ =~= seq![digit_char(1)]);
        "1"
    } else if d == 2 {
        assert("2"@ =~= seq![digit_char(2)]);
        "2"
    } else if d == 3 {
        assert("3"@ =~= seq![digit_char(3)]);
        "3"
    } else if d == 4 {
        assert("4"@ =~= seq![digit_char(4)]);
        "4"
    } else if d == 5 {
        assert("5"@ =~= seq![digit_char(5)]);
        "5"
    } else if d == 6 {
        assert("6"@ =~= seq![digit_char(6)]);
        "6"
    } else if d == 7 {
        assert("7"@ =~= seq![digit_char(7)]);
        "7"
    } else if d == 8 {
        assert("8"@ =~= seq![digit_char(8)]);
        "8"
    } else {
        assert("9"@ =~= seq![digit_char(9)]);
        "9"
    }
}

/// The decimal rendering of an unsigned number.
fn u64_string(m: u64) -> (s: String)
    ensures
        s@ == dec_digits(m as int),
    decreases m,
{
    if m < 10 {
        digit_str(m).to_owned()
    } else {
        let mut s = u64_string(m / 10);
        s.append(digit_str(m % 10));
        proof {
            assert(s@ =~= dec_digits(m as int));
        }
        s
    }
}

/// The decimal rendering of a signed number, minus sign included.
fn i32_string(n: i32) -> (s: String)
    ensures
        s@ == int_str(n as int),
{
    if n < 0 {
        let mag: u64 = (-(n as i64)) as u64;
        let mut s = "-".to_owned();
        s.append(u64_string(mag).as_str());
        proof {
            reveal_strlit("-");
            assert("-"@ =~= seq!['-']);
            assert(s@ =~= int_str(n as int));
        }
        s
    } else {
        u64_string(n as u64)
    }
}

/// Sorts the entries from best to worst score by insertion, keeping exactly
/// the same entries.
fn sort_by_score_desc(v: &mut Vec<HighScore>)
    ensures
        sorted_desc(entries(final(v)@)),
        entries(final(v)@).to_multiset() == entries(old(v)@).to_multiset(),
        final(v)@.len() == old(v)@.len(),
{
    let ghost ms0 = entries(old(v)@).to_multiset();
    let mut i: usize = 1;
    while i < v.len()
        invariant
            1 <= i,
            v@.len() == old(v)@.len(),
            i <= v@.len() || v@.len() <= 1,
            entries(v@).to_multiset() == ms0,
            ms0 == entries(old(v)@).to_multiset(),
            forall|a: int, b: int|
                0 <= a < b < i && b < v@.len() ==> entries(v@)[a].score >= entries(v@)[b].score,
        decreases v@.len() - i,
    {
        let mut j: usize = i;
        while j > 0 && v[j - 1].score < v[j].score
            invariant
                v@.len() == old(v)@.len(),
                j <= i < v@.len(),
                entries(v@).to_multiset() == ms0,
                ms0 == entries(old(v)@).to_multiset(),
                forall|a: int, b: int|
                    0 <= a < b <= i && b != j ==> entries(v@)[a].score >= entries(v@)[b].score,
                forall|b: int|
                    j < b <= i ==> entries(v@)[j as int].score >= entries(v@)[b].score,
            decreases j,
        {
            let ghost e_before = entries(v@);
            let x = v.remove(j);
            v.insert(j - 1, x);
            proof {
                assert(entries(v@) =~= e_before.remove(j as int).insert(j - 1, e_before[j as int]));
                lemma_move_left(e_before, j as int);
                assert(entries(v@) =~= e_before.update(j - 1, e_before[j as int]).update(
                    j as int,
                    e_before[j - 1],
                ));
            }
            j -= 1;
        }
        proof {
            let e = entries(v@);
            assert forall|a: int, b: int| 0 <= a < b <= i implies e[a].score >= e[b].score by {
                if b == j {
                    if a < j - 1 {
                        assert(e[a].score >= e[j - 1].score);
                    }
                }
            }
        }
        i += 1;
    }
}

/// The index of the first entry carrying this player name, if any.
fn find_user_index(v: &Vec<HighScore>, uname: &String) -> (r: Option<usize>)
    ensures
        match r {
            Option::Some(k) => is_first_match(entries(v@), uname@, k as int),
            Option::None => forall|t: int|
                0 <= t < entries(v@).len() ==> (#[trigger] entries(v@)[t]).username != uname@,
        },
{
    let mut k: usize = 0;
    while k < v.len()
        invariant
            k <= v@.len(),
            forall|t: int| 0 <= t < k ==> (#[trigger] entries(v@)[t]).username != uname@,
        decreases v@.len() - k,
    {
        if v[k].username == *uname {
            return Some(k);
        }
        k += 1;
    }
    None
}

impl ScoreBoard {
    /// A board over the given entries, with no display string formatted yet.
    pub fn new(highscores: Vec<HighScore>) -> (sb: ScoreBoard)
        ensures
            sb.highscores == highscores,
            sb.formatted_highscores@ == Seq::<char>::empty(),
    {
        ScoreBoard { highscores, formatted_highscores: String::new() }
    }

    /// Renders the board into its display string: one `name: score` line per
    /// entry in board order, joined by the delimiter and cleaned of NUL
    /// characters, or a placeholder while the board is empty. The entries
    /// themselves are untouched.
    pub fn format_highscores(&mut self, delimiter: &str)
        ensures
            final(self).highscores == old(self).highscores,
            final(self).formatted_highscores@ == spec_formatted(
                entries(old(self).highscores@),
                delimiter@,
            ),
    {
        let ghost e = entries(self.highscores@);
        if self.highscores.len() == 0 {
            self.formatted_highscores = "no highscores yet".to_owned();
            return ;
        }
        let mut out = String::new();
        let mut i: usize = 0;
        while i < self.highscores.len()
            invariant
                e == entries(self.highscores@),
                i <= self.highscores@.len(),
                out@ == joined_lines(e.subrange(0, i as int), delimiter@),
            decreases self.highscores@.len() - i,
        {
            let ghost prefix = e.subrange(0, i as int);
            if i > 0 {
                out.append(delimiter);
            }
            out.append(self.highscores[i].username.as_str());
            out.append(": ");
            let num = i32_string(self.highscores[i].score);
            out.append(num.as_str());
            proof {
                assert(e.subrange(0, i + 1) =~= prefix.push(e[i as int]));
                lemma_joined_push(prefix, e[i as int], delimiter@);
                assert(out@ =~= joined_lines(e.subrange(0, i + 1), delimiter@));
            }
            i += 1;
        }
        proof {
            assert(e.subrange(0, e.len() as int) =~= e);
        }
        self.formatted_highscores = strip_nul_str(out.as_str());
    }

    /// Offers a score under a player name (NUL characters are stripped, and
    /// a name empty after that counts as "unknown"). A new player gains an
    /// entry; a known player's first entry rises only when the offered score
    /// beats it. The board is then re-sorted from best to worst — the order
    /// among equal scores is not pinned — and its display string refreshed.
    /// Says whether the offer entered the board.
    pub fn update_highscore(&mut self, username: &str, score: i32) -> (r: ScoreUpdated)
        ensures
            r == ScoreUpdated::NewHighScore <==> improves(
                entries(old(self).highscores@),
                sanitize(username@),
                score as int,
            ),
            entries(final(self).highscores@).to_multiset() == update_entries(
                entries(old(self).highscores@),
                sanitize(username@),
                score as int,
            ).to_multiset(),
            sorted_desc(entries(final(self).highscores@)),
            final(self).formatted_highscores@ == spec_formatted(
                entries(final(self).highscores@),
                ";"@,
            ),
    {
        let ghost e0 = entries(self.highscores@);
        let ghost u = sanitize(username@);
        let cleaned = strip_nul_str(username);
        let uname: String = if cleaned.as_str().is_empty() {
            "unknown".to_owned()
        } else {
            cleaned
        };
        let mut result = ScoreUpdated::NewHighScore;
        match find_user_index(&self.highscores, &uname) {
            Option::Some(k) => {
                proof {
                    lemma_first_match_unique(
                        e0,
                        u,
                        k as int,
                        choose|t: int| is_first_match(e0, u, t),
                    );
                }
                if score > self.highscores[k].score {
                    let name = self.highscores[k].username.clone();
                    self.highscores[k] = HighScore { username: name, score };
                    proof {
                        assert(entries(self.highscores@) =~= update_entries(e0, u, score as int));
                    }
                } else {
                    result = ScoreUpdated::NotImproved;
                }
            },
            Option::None => {
                proof {
                    if exists|t: int| is_first_match(e0, u, t) {
                        let t = choose|t: int| is_first_match(e0, u, t);
                        assert(e0[t].username != u);
                    }
                }
                self.highscores.push(HighScore { username: uname, score });
                proof {
                    assert(entries(self.highscores@) =~= update_entries(e0, u, score as int));
                }
            },
        }
        sort_by_score_desc(&mut self.highscores);
        self.format_highscores(";");
        result
    }

    /// Renders the board into its stored form: one `name: score` line per
    /// entry in board order, each ended by a newline. The caller writes the
    /// result wherever the scores are kept.
    pub fn render_highscores(&self) -> (s: String)
        ensures
            s@ == file_content(entries(self.highscores@)),
    {
        let ghost e = entries(self.highscores@);
        let mut out = String::new();
        let mut i: usize = 0;
        while i < self.highscores.len()
            invariant
                e == entries(self.highscores@),
                i <= self.highscores@.len(),
                out@ == file_content(e.subrange(0, i as int)),
            decreases self.highscores@.len() - i,
        {
            let ghost prefix = e.subrange(0, i as int);
            out.append(self.highscores[i].username.as_str());
            out.append(": ");
            let num = i32_string(self.highscores[i].score);
            out.append(num.as_str());
            out.append("\n");
            proof {
                assert(e.subrange(0, i + 1) =~= prefix.push(e[i as int]));
                lemma_file_push(prefix, e[i as int]);
                assert(out@ =~= file_content(e.subrange(0, i + 1)));
            }
            i += 1;
        }
        proof {
            assert(e.subrange(0, e.len() as int) =~= e);
        }
        out
    }

    /// The recorded best of a player, or 0 for a player with no entry. The
    /// query name is compared with its NUL characters removed.
    pub fn get_users_highscore(&self, username: &str) -> (s: i32)
        ensures
            s as int == user_score(entries(self.highscores@), strip_nul(username@)),
    {
        let ghost e = entries(self.highscores@);
        let ghost u = strip_nul(username@);
        let uname: String = strip_nul_str(username);
        let mut k: usize = 0;
        while k < self.highscores.len()
            invariant
                e == entries(self.highscores@),
                u == strip_nul(username@),
                uname@ == u,
                k <= self.highscores@.len(),
                forall|t: int| 0 <= t < k ==> (#[trigger] e[t]).username != u,
            decreases self.highscores@.len() - k,
        {
            if self.highscores[k].username == uname {
                proof {
                    assert(is_first_match(e, u, k as int));
                    lemma_first_match_unique(
                        e,
                        u,
                        k as int,
                        choose|t: int| is_first_match(e, u, t),
                    );
                }
                return self.highscores[k].score;
            }
            k += 1;
        }
        proof {
            if exists|t: int| is_first_match(e, u, t) {
                let t = choose|t: int| is_first_match(e, u, t);
                assert(e[t].username != u);
            }
        }
        0
    }
}

} // verus!
