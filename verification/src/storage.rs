//! The persisted document: a plain-text encoding of every group and schedule,
//! written so that parsing a just-encoded document gives back exactly the
//! data that was written. The round trip is proved, not sampled.
//!
//! The format is length-directed text: a number is its decimal digits closed
//! by `;`, a string is its character count followed by its characters, and
//! sums carry a one-character tag. Nothing needs escaping, so any command
//! text round-trips.

use vstd::prelude::*;
use crate::model::{
    AppData, AppDataView, CommandGroup, CommandGroupView, CommandItem, CommandItemView,
    Recurrence, RecurrenceView, Schedule, ScheduleView, spec_item_views, spec_group_views,
    spec_schedule_views,
};
use crate::registry::spec_contains_gid;

verus! {

/// The numeric value of a decimal digit character, if it is one.
pub open spec fn spec_digit_of(c: char) -> Option<int> {
    if c == '0' {
        Option::Some(0int)
    } else if c == '1' {
        Option::Some(1int)
    } else if c == '2' {
        Option::Some(2int)
    } else if c == '3' {
        Option::Some(3int)
    } else if c == '4' {
        Option::Some(4int)
    } else if c == '5' {
        Option::Some(5int)
    } else if c == '6' {
        Option::Some(6int)
    } else if c == '7' {
        Option::Some(7int)
    } else if c == '8' {
        Option::Some(8int)
    } else if c == '9' {
        Option::Some(9int)
    } else {
        Option::None
    }
}

/// The digit character of a value below ten.
pub open spec fn spec_char_of_digit(d: int) -> char {
    if d == 0 {
        '0'
    } else if d == 1 {
        '1'
    } else if d == 2 {
        '2'
    } else if d == 3 {
        '3'
    } else if d == 4 {
        '4'
    } else if d == 5 {
        '5'
    } else if d == 6 {
        '6'
    } else if d == 7 {
        '7'
    } else if d == 8 {
        '8'
    } else {
        '9'
    }
}

/// Character and value of a digit agree in both directions.
pub proof fn lemma_digit_char_inverse(d: int)
    requires
        0 <= d <= 9,
    ensures
        spec_digit_of(spec_char_of_digit(d)) == Option::Some(d),
{
}

/// The decimal digits of a number, most significant first.
pub open spec fn spec_digits(n: int) -> Seq<char>
    decreases n,
{
    if n <= 9 {
        seq![spec_char_of_digit(n)]
    } else {
        spec_digits(n / 10).push(spec_char_of_digit(n % 10))
    }
}

/// The value of a digit string, read left to right.
pub open spec fn spec_digits_val(ds: Seq<char>) -> int
    decreases ds.len(),
{
    if ds.len() == 0 {
        0
    } else {
        spec_digits_val(ds.drop_last()) * 10 + spec_digit_of(ds.last())->Some_0
    }
}

/// Every character of the string is a decimal digit.
pub open spec fn spec_all_digits(ds: Seq<char>) -> bool {
    forall|k: int| 0 <= k < ds.len() ==> spec_digit_of(ds[k]) is Some
}

/// The digits of a number are digits, value back to the number, and there is
/// at least one of them.
pub proof fn lemma_digits_of(n: int)
    requires
        0 <= n,
    ensures
        spec_all_digits(spec_digits(n)),
        spec_digits_val(spec_digits(n)) == n,
        spec_digits(n).len() >= 1,
    decreases n,
{
    if n <= 9 {
        lemma_digit_char_inverse(n);
        assert(spec_digits_val(Seq::<char>::empty()) == 0);
        assert(spec_digits(n).drop_last() =~= Seq::<char>::empty());
        assert(spec_digits_val(spec_digits(n)) == spec_digits_val(spec_digits(n).drop_last()) * 10
            + spec_digit_of(spec_digits(n).last())->Some_0);
    } else {
        lemma_digits_of(n / 10);
        lemma_digit_char_inverse(n % 10);
        vstd::arithmetic::div_mod::lemma_fundamental_div_mod(n, 10);
        assert(spec_digits(n).drop_last() =~= spec_digits(n / 10));
        assert(spec_digits(n).last() == spec_char_of_digit(n % 10));
        assert(spec_digits_val(spec_digits(n)) == spec_digits_val(spec_digits(n / 10)) * 10 + (n
            % 10));
        assert forall|k: int|
            0 <= k < spec_digits(n).len() implies spec_digit_of(spec_digits(n)[k]) is Some by {
            if k < spec_digits(n).len() - 1 {
                assert(spec_digits(n)[k] == spec_digits(n / 10)[k]);
            }
        }
    }
}

/// Ten to the `k`.
pub open spec fn spec_pow10(k: int) -> int
    decreases k,
{
    if k <= 0 {
        1
    } else {
        10 * spec_pow10(k - 1)
    }
}

/// Powers of ten are positive.
pub proof fn lemma_pow10_pos(k: int)
    ensures
        spec_pow10(k) >= 1,
    decreases k,
{
    if k > 0 {
        lemma_pow10_pos(k - 1);
    }
}

/// A digit string's value is not negative.
pub proof fn lemma_digits_val_nonneg(ds: Seq<char>)
    requires
        spec_all_digits(ds),
    ensures
        spec_digits_val(ds) >= 0,
    decreases ds.len(),
{
    if ds.len() > 0 {
        assert(spec_all_digits(ds.drop_last())) by {
            assert(forall|k: int|
                0 <= k < ds.len() - 1 ==> ds.drop_last()[k] == ds[k]);
        }
        lemma_digits_val_nonneg(ds.drop_last());
        assert(spec_digit_of(ds.last())->Some_0 >= 0);
    }
}

/// Reading one leading digit: the value of `[d] + t` is `d` shifted past `t`
/// plus the value of `t`.
pub proof fn lemma_digits_val_cons(d: char, t: Seq<char>)
    requires
        spec_digit_of(d) is Some,
        spec_all_digits(t),
    ensures
        spec_digits_val(seq![d] + t) == spec_digit_of(d)->Some_0 * spec_pow10(t.len() as int)
            + spec_digits_val(t),
    decreases t.len(),
{
    let whole = seq![d] + t;
    if t.len() == 0 {
        assert(whole.len() == 1);
        assert(whole.last() == d);
        assert(spec_digits_val(Seq::<char>::empty()) == 0);
        assert(whole.drop_last() =~= Seq::<char>::empty());
        assert(spec_digits_val(whole) == spec_digits_val(whole.drop_last()) * 10 + spec_digit_of(
            whole.last(),
        )->Some_0);
        assert(t =~= Seq::<char>::empty());
    } else {
        assert(spec_all_digits(t.drop_last())) by {
            assert(forall|k: int| 0 <= k < t.len() - 1 ==> t.drop_last()[k] == t[k]);
        }
        lemma_digits_val_cons(d, t.drop_last());
        assert(whole.drop_last() =~= seq![d] + t.drop_last());
        assert(whole.last() == t.last());
        assert(spec_pow10(t.len() as int) == 10 * spec_pow10(t.len() - 1));
        let dv = spec_digit_of(d)->Some_0;
        let p = spec_pow10(t.len() - 1);
        let vdl = spec_digits_val(t.drop_last());
        assert(spec_digits_val(whole) == spec_digits_val(whole.drop_last()) * 10 + spec_digit_of(
            whole.last(),
        )->Some_0);
        assert(spec_digits_val(whole.drop_last()) == dv * p + vdl);
        assert(spec_digits_val(t) == vdl * 10 + spec_digit_of(t.last())->Some_0);
        assert((dv * p + vdl) * 10 == dv * (10 * p) + vdl * 10) by (nonlinear_arith);
    }
}

/// Whether `pat` stands in `s` at position `pos`.
pub open spec fn spec_matches_at(s: Seq<char>, pos: int, pat: Seq<char>) -> bool {
    &&& 0 <= pos
    &&& pos + pat.len() <= s.len()
    &&& forall|k: int| 0 <= k < pat.len() ==> s[pos + k] == pat[k]
}

/// A concatenation stands at `pos` exactly when its parts stand in sequence.
pub proof fn lemma_matches_at_split(s: Seq<char>, pos: int, a: Seq<char>, b: Seq<char>)
    requires
        spec_matches_at(s, pos, a + b),
    ensures
        spec_matches_at(s, pos, a),
        spec_matches_at(s, pos + a.len(), b),
{
    assert forall|k: int| 0 <= k < a.len() implies s[pos + k] == a[k] by {
        assert((a + b)[k] == a[k]);
    }
    assert forall|k: int| 0 <= k < b.len() implies s[pos + a.len() + k] == b[k] by {
        assert((a + b)[a.len() + k] == b[k]);
    }
}

/// A number's encoding: its decimal digits closed by a semicolon.
pub open spec fn spec_enc_u64(n: int) -> Seq<char> {
    spec_digits(n) + seq![';']
}

/// Parse digits into `acc` until the closing semicolon; fail on a stray
/// character, the end of input, or a value past the machine limit.
pub open spec fn spec_parse_digits(s: Seq<char>, pos: int, acc: int) -> Option<(int, int)>
    decreases s.len() - pos,
{
    if pos < 0 || pos >= s.len() {
        Option::None
    } else if s[pos] == ';' {
        Option::Some((acc, pos + 1))
    } else {
        match spec_digit_of(s[pos]) {
            Option::Some(d) => if acc * 10 + d > u64::MAX {
                Option::None
            } else {
                spec_parse_digits(s, pos + 1, acc * 10 + d)
            },
            Option::None => Option::None,
        }
    }
}

/// Parse a number: at least one digit, then the closing semicolon.
pub open spec fn spec_parse_u64(s: Seq<char>, pos: int) -> Option<(int, int)> {
    if 0 <= pos < s.len() && spec_digit_of(s[pos]) is Some {
        spec_parse_digits(s, pos, 0)
    } else {
        Option::None
    }
}

/// Parsing a digit string closed by a semicolon accumulates exactly its
/// value, shifted past whatever was already accumulated.
pub proof fn lemma_parse_digits_enc(s: Seq<char>, pos: int, ds: Seq<char>, acc: int)
    requires
        spec_all_digits(ds),
        spec_matches_at(s, pos, ds + seq![';']),
        0 <= acc,
        acc * spec_pow10(ds.len() as int) + spec_digits_val(ds) <= u64::MAX,
    ensures
        spec_parse_digits(s, pos, acc) == Option::Some(
            (acc * spec_pow10(ds.len() as int) + spec_digits_val(ds), pos + ds.len() + 1),
        ),
    decreases ds.len(),
{
    lemma_digits_val_nonneg(ds);
    if ds.len() == 0 {
        assert(s[pos] == (ds + seq![';'])[0]);
        assert(s[pos] == ';');
        assert(spec_digits_val(ds) == 0);
        assert(acc * spec_pow10(0) == acc);
    } else {
        let d0 = ds[0];
        let t = ds.skip(1);
        assert(ds =~= seq![d0] + t);
        assert(spec_all_digits(t)) by {
            assert(forall|k: int| 0 <= k < t.len() ==> t[k] == ds[k + 1]);
        }
        assert(s[pos] == (ds + seq![';'])[0]);
        assert(s[pos] == d0);
        assert(spec_digit_of(d0) is Some);
        assert(s[pos] != ';');
        let dv = spec_digit_of(d0)->Some_0;
        let acc2 = acc * 10 + dv;
        lemma_digits_val_cons(d0, t);
        lemma_pow10_pos(t.len() as int);
        lemma_digits_val_nonneg(t);
        assert(spec_pow10(ds.len() as int) == 10 * spec_pow10(t.len() as int));
        assert(acc2 * spec_pow10(t.len() as int) == acc * spec_pow10(ds.len() as int) + dv
            * spec_pow10(t.len() as int)) by (nonlinear_arith)
            requires
                acc2 == acc * 10 + dv,
                spec_pow10(ds.len() as int) == 10 * spec_pow10(t.len() as int),
        ;
        assert(acc2 * spec_pow10(t.len() as int) + spec_digits_val(t) == acc * spec_pow10(
            ds.len() as int,
        ) + spec_digits_val(ds));
        assert(acc2 <= acc2 * spec_pow10(t.len() as int)) by (nonlinear_arith)
            requires
                acc2 >= 0,
                spec_pow10(t.len() as int) >= 1,
        ;
        assert(spec_matches_at(s, pos + 1, t + seq![';'])) by {
            assert forall|k: int|
                0 <= k < (t + seq![';']).len() implies s[pos + 1 + k] == (t + seq![';'])[k] by {
                assert((ds + seq![';'])[k + 1] == (t + seq![';'])[k]);
                assert(s[pos + (k + 1)] == (ds + seq![';'])[k + 1]);
            }
        }
        lemma_parse_digits_enc(s, pos + 1, t, acc2);
    }
}

/// Parsing an encoded number from where it was written gives back the
/// number and stops right after its closing semicolon.
pub proof fn lemma_parse_enc_u64(s: Seq<char>, pos: int, n: int)
    requires
        0 <= n <= u64::MAX,
        spec_matches_at(s, pos, spec_enc_u64(n)),
    ensures
        spec_parse_u64(s, pos) == Option::Some((n, pos + spec_enc_u64(n).len())),
{
    lemma_digits_of(n);
    lemma_pow10_pos(spec_digits(n).len() as int);
    assert(s[pos] == (spec_digits(n) + seq![';'])[0]);
    assert(s[pos] == spec_digits(n)[0]);
    assert(spec_digit_of(s[pos]) is Some);
    lemma_parse_digits_enc(s, pos, spec_digits(n), 0);
}

/// An optional number-and-rest pair, as mathematical integers.
pub open spec fn opt_pair_u64(o: Option<(u64, usize)>) -> Option<(int, int)> {
    match o {
        Option::Some((v, p)) => Option::Some((v as int, p as int)),
        Option::None => Option::None,
    }
}

/// The one-character string of a digit value.
fn digit_str(d: u64) -> (r: &'static str)
    requires
        d <= 9,
    ensures
        r@ == seq![spec_char_of_digit(d as int)],
{
    proof {
        reveal_strlit("0");
        reveal_strlit("1");
        reveal_strlit("2");
        reveal_strlit("3");
        reveal_strlit("4");
        reveal_strlit("5");
        reveal_strlit("6");
        reveal_strlit("7");
        reveal_strlit("8");
        reveal_strlit("9");
    }
    let r = if d == 0 {
        "0"
    } else if d == 1 {
        "1"
    } else if d == 2 {
        "2"
    } else if d == 3 {
        "3"
    } else if d == 4 {
        "4"
    } else if d == 5 {
        "5"
    } else if d == 6 {
        "6"
    } else if d == 7 {
        "7"
    } else if d == 8 {
        "8"
    } else {
        "9"
    };
    proof {
        assert(r@ =~= seq![spec_char_of_digit(d as int)]);
    }
    r
}

/// The decimal digits of a number, as a string.
fn digits_string(n: u64) -> (r: String)
    ensures
        r@ == spec_digits(n as int),
    decreases n,
{
    if n <= 9 {
        digit_str(n).to_owned()
    } else {
        let mut s = digits_string(n / 10);
        s.append(digit_str(n % 10));
        proof {
            assert(s@ =~= spec_digits(n as int));
        }
        s
    }
}

/// Encode a number: its digits closed by a semicolon.
pub fn encode_u64(n: u64) -> (r: String)
    ensures
        r@ == spec_enc_u64(n as int),
{
    let mut s = digits_string(n);
    proof {
        reveal_strlit(";");
    }
    s.append(";");
    proof {
        assert(s@ =~= spec_enc_u64(n as int));
    }
    s
}

/// The value of a digit character, executably.
fn char_digit(c: char) -> (r: Option<u64>)
    ensures
        match r {
            Option::Some(d) => spec_digit_of(c) == Option::Some(d as int),
            Option::None => spec_digit_of(c) is None,
        },
{
    match c {
        '0' => Option::Some(0),
        '1' => Option::Some(1),
        '2' => Option::Some(2),
        '3' => Option::Some(3),
        '4' => Option::Some(4),
        '5' => Option::Some(5),
        '6' => Option::Some(6),
        '7' => Option::Some(7),
        '8' => Option::Some(8),
        '9' => Option::Some(9),
        _ => Option::None,
    }
}

/// Parse digits into `acc` until the closing semicolon, executably.
fn parse_digits(s: &str, pos: usize, acc: u64) -> (r: Option<(u64, usize)>)
    ensures
        opt_pair_u64(r) == spec_parse_digits(s@, pos as int, acc as int),
    decreases s@.len() - pos,
{
    let n = s.unicode_len();
    if pos >= n {
        return Option::None;
    }
    let c = s.get_char(pos);
    if c == ';' {
        return Option::Some((acc, pos + 1));
    }
    match char_digit(c) {
        Option::Some(d) => {
            if (acc as u128) * 10 + (d as u128) > u64::MAX as u128 {
                Option::None
            } else {
                parse_digits(s, pos + 1, acc * 10 + d)
            }
        },
        Option::None => Option::None,
    }
}

/// Parse a number: at least one digit, then the closing semicolon.
pub fn parse_u64(s: &str, pos: usize) -> (r: Option<(u64, usize)>)
    ensures
        opt_pair_u64(r) == spec_parse_u64(s@, pos as int),
{
    let n = s.unicode_len();
    if pos >= n {
        return Option::None;
    }
    let c = s.get_char(pos);
    if char_digit(c).is_none() {
        return Option::None;
    }
    parse_digits(s, pos, 0)
}

/// A successful digit parse lands strictly ahead, inside the input, with a
/// machine-sized value.
pub proof fn lemma_parse_digits_bounds(s: Seq<char>, pos: int, acc: int)
    requires
        0 <= acc <= u64::MAX,
    ensures
        match spec_parse_digits(s, pos, acc) {
            Option::Some((v, p)) => pos < p <= s.len() && 0 <= v <= u64::MAX,
            Option::None => true,
        },
    decreases s.len() - pos,
{
    if 0 <= pos < s.len() && s[pos] != ';' {
        match spec_digit_of(s[pos]) {
            Option::Some(d) => {
                if acc * 10 + d <= u64::MAX {
                    lemma_parse_digits_bounds(s, pos + 1, acc * 10 + d);
                }
            },
            Option::None => {},
        }
    }
}

/// A successful number parse lands strictly ahead, inside the input, with a
/// machine-sized value.
pub proof fn lemma_parse_u64_bounds(s: Seq<char>, pos: int)
    ensures
        match spec_parse_u64(s, pos) {
            Option::Some((v, p)) => pos < p <= s.len() && 0 <= v <= u64::MAX,
            Option::None => true,
        },
{
    lemma_parse_digits_bounds(s, pos, 0);
}

/// A string's encoding: its character count, then its characters. Nothing is
/// escaped; the count says where the string ends.
pub open spec fn spec_enc_str(t: Seq<char>) -> Seq<char> {
    spec_enc_u64(t.len() as int) + t
}

/// Parse a string: a count, then that many characters.
pub open spec fn spec_parse_str(s: Seq<char>, pos: int) -> Option<(Seq<char>, int)> {
    match spec_parse_u64(s, pos) {
        Option::Some((len, p2)) => if p2 + len <= s.len() {
            Option::Some((s.subrange(p2, p2 + len), p2 + len))
        } else {
            Option::None
        },
        Option::None => Option::None,
    }
}

/// Parsing an encoded string from where it was written gives it back.
pub proof fn lemma_parse_enc_str(s: Seq<char>, pos: int, t: Seq<char>)
    requires
        t.len() <= u64::MAX,
        spec_matches_at(s, pos, spec_enc_str(t)),
    ensures
        spec_parse_str(s, pos) == Option::Some((t, pos + spec_enc_str(t).len())),
{
    lemma_matches_at_split(s, pos, spec_enc_u64(t.len() as int), t);
    lemma_parse_enc_u64(s, pos, t.len() as int);
    let p2 = pos + spec_enc_u64(t.len() as int).len();
    assert(s.subrange(p2, p2 + t.len()) =~= t);
}

/// An optional string-and-rest pair, as views.
pub open spec fn opt_pair_str(o: Option<(String, usize)>) -> Option<(Seq<char>, int)> {
    match o {
        Option::Some((v, p)) => Option::Some((v@, p as int)),
        Option::None => Option::None,
    }
}

/// Parse a string, executably.
pub fn parse_string(s: &str, pos: usize) -> (r: Option<(String, usize)>)
    ensures
        opt_pair_str(r) == spec_parse_str(s@, pos as int),
{
    let (len, p2) = match parse_u64(s, pos) {
        Option::Some(x) => x,
        Option::None => {
            return Option::None;
        },
    };
    let n = s.unicode_len();
    proof {
        lemma_parse_u64_bounds(s@, pos as int);
    }
    if len > (n - p2) as u64 {
        return Option::None;
    }
    let end = p2 + (len as usize);
    let sub = s.substring_char(p2, end);
    Option::Some((sub.to_owned(), end))
}

/// A flag's encoding: one character.
pub open spec fn spec_enc_bool(b: bool) -> Seq<char> {
    if b {
        seq!['1']
    } else {
        seq!['0']
    }
}

/// Parse a flag.
pub open spec fn spec_parse_bool(s: Seq<char>, pos: int) -> Option<(bool, int)> {
    if 0 <= pos < s.len() {
        if s[pos] == '1' {
            Option::Some((true, pos + 1))
        } else if s[pos] == '0' {
            Option::Some((false, pos + 1))
        } else {
            Option::None
        }
    } else {
        Option::None
    }
}

/// Parsing an encoded flag from where it was written gives it back.
pub proof fn lemma_parse_enc_bool(s: Seq<char>, pos: int, b: bool)
    requires
        spec_matches_at(s, pos, spec_enc_bool(b)),
    ensures
        spec_parse_bool(s, pos) == Option::Some((b, pos + 1)),
{
    assert(s[pos] == spec_enc_bool(b)[0]);
}

/// An optional flag-and-rest pair.
pub open spec fn opt_pair_bool(o: Option<(bool, usize)>) -> Option<(bool, int)> {
    match o {
        Option::Some((v, p)) => Option::Some((v, p as int)),
        Option::None => Option::None,
    }
}

/// Parse a flag, executably.
pub fn parse_bool(s: &str, pos: usize) -> (r: Option<(bool, usize)>)
    ensures
        opt_pair_bool(r) == spec_parse_bool(s@, pos as int),
{
    let n = s.unicode_len();
    if pos >= n {
        return Option::None;
    }
    let c = s.get_char(pos);
    if c == '1' {
        Option::Some((true, pos + 1))
    } else if c == '0' {
        Option::Some((false, pos + 1))
    } else {
        Option::None
    }
}

/// An optional string's encoding: an absence flag, then the string if any.
pub open spec fn spec_enc_opt_str(o: Option<Seq<char>>) -> Seq<char> {
    match o {
        Option::None => seq!['0'],
        Option::Some(t) => seq!['1'] + spec_enc_str(t),
    }
}

/// Parse an optional string.
pub open spec fn spec_parse_opt_str(s: Seq<char>, pos: int) -> Option<(Option<Seq<char>>, int)> {
    if 0 <= pos < s.len() {
        if s[pos] == '0' {
            Option::Some((Option::None, pos + 1))
        } else if s[pos] == '1' {
            match spec_parse_str(s, pos + 1) {
                Option::Some((t, p2)) => Option::Some((Option::Some(t), p2)),
                Option::None => Option::None,
            }
        } else {
            Option::None
        }
    } else {
        Option::None
    }
}

/// An optional number's encoding: an absence flag, then the number if any.
pub open spec fn spec_enc_opt_u64(o: Option<int>) -> Seq<char> {
    match o {
        Option::None => seq!['0'],
        Option::Some(v) => seq!['1'] + spec_enc_u64(v),
    }
}

/// Parse an optional number.
pub open spec fn spec_parse_opt_u64(s: Seq<char>, pos: int) -> Option<(Option<int>, int)> {
    if 0 <= pos < s.len() {
        if s[pos] == '0' {
            Option::Some((Option::None, pos + 1))
        } else if s[pos] == '1' {
            match spec_parse_u64(s, pos + 1) {
                Option::Some((v, p2)) => Option::Some((Option::Some(v), p2)),
                Option::None => Option::None,
            }
        } else {
            Option::None
        }
    } else {
        Option::None
    }
}

/// Parsing an encoded optional string from where it was written gives it
/// back.
pub proof fn lemma_parse_enc_opt_str(s: Seq<char>, pos: int, o: Option<Seq<char>>)
    requires
        match o {
            Option::Some(t) => t.len() <= u64::MAX,
            Option::None => true,
        },
        spec_matches_at(s, pos, spec_enc_opt_str(o)),
    ensures
        spec_parse_opt_str(s, pos) == Option::Some((o, pos + spec_enc_opt_str(o).len())),
{
    match o {
        Option::None => {
            assert(s[pos] == spec_enc_opt_str(o)[0]);
        },
        Option::Some(t) => {
            assert(s[pos] == spec_enc_opt_str(o)[0]);
            lemma_matches_at_split(s, pos, seq!['1'], spec_enc_str(t));
            lemma_parse_enc_str(s, pos + 1, t);
        },
    }
}

/// Parsing an encoded optional number from where it was written gives it
/// back.
pub proof fn lemma_parse_enc_opt_u64(s: Seq<char>, pos: int, o: Option<int>)
    requires
        match o {
            Option::Some(v) => 0 <= v <= u64::MAX,
            Option::None => true,
        },
        spec_matches_at(s, pos, spec_enc_opt_u64(o)),
    ensures
        spec_parse_opt_u64(s, pos) == Option::Some((o, pos + spec_enc_opt_u64(o).len())),
{
    match o {
        Option::None => {
            assert(s[pos] == spec_enc_opt_u64(o)[0]);
        },
        Option::Some(v) => {
            assert(s[pos] == spec_enc_opt_u64(o)[0]);
            lemma_matches_at_split(s, pos, seq!['1'], spec_enc_u64(v));
            lemma_parse_enc_u64(s, pos + 1, v);
        },
    }
}

/// A recurrence's encoding: a tag character, then its payload if any.
pub open spec fn spec_enc_rec(r: RecurrenceView) -> Seq<char> {
    match r {
        RecurrenceView::Once => seq!['O'],
        RecurrenceView::Daily => seq!['D'],
        RecurrenceView::Weekly => seq!['W'],
        RecurrenceView::Monthly => seq!['M'],
        RecurrenceView::Custom { interval_minutes } => seq!['C'] + spec_enc_u64(interval_minutes),
        RecurrenceView::Cron { expression } => seq!['X'] + spec_enc_str(expression),
    }
}

/// Parse a recurrence.
pub open spec fn spec_parse_rec(s: Seq<char>, pos: int) -> Option<(RecurrenceView, int)> {
    if 0 <= pos < s.len() {
        if s[pos] == 'O' {
            Option::Some((RecurrenceView::Once, pos + 1))
        } else if s[pos] == 'D' {
            Option::Some((RecurrenceView::Daily, pos + 1))
        } else if s[pos] == 'W' {
            Option::Some((RecurrenceView::Weekly, pos + 1))
        } else if s[pos] == 'M' {
            Option::Some((RecurrenceView::Monthly, pos + 1))
        } else if s[pos] == 'C' {
            match spec_parse_u64(s, pos + 1) {
                Option::Some((v, p2)) => if v <= u32::MAX {
                    Option::Some((RecurrenceView::Custom { interval_minutes: v }, p2))
                } else {
                    Option::None
                },
                Option::None => Option::None,
            }
        } else if s[pos] == 'X' {
            match spec_parse_str(s, pos + 1) {
                Option::Some((t, p2)) => Option::Some(
                    (RecurrenceView::Cron { expression: t }, p2),
                ),
                Option::None => Option::None,
            }
        } else {
            Option::None
        }
    } else {
        Option::None
    }
}

/// A recurrence the encoding can carry: a machine-sized interval and a
/// machine-sized expression.
pub open spec fn spec_rec_enc_ok(r: RecurrenceView) -> bool {
    match r {
        RecurrenceView::Custom { interval_minutes } => 0 <= interval_minutes <= u32::MAX,
        RecurrenceView::Cron { expression } => expression.len() <= u64::MAX,
        _ => true,
    }
}

/// Parsing an encoded recurrence from where it was written gives it back.
pub proof fn lemma_parse_enc_rec(s: Seq<char>, pos: int, r: RecurrenceView)
    requires
        spec_rec_enc_ok(r),
        spec_matches_at(s, pos, spec_enc_rec(r)),
    ensures
        spec_parse_rec(s, pos) == Option::Some((r, pos + spec_enc_rec(r).len())),
{
    assert(s[pos] == spec_enc_rec(r)[0]);
    match r {
        RecurrenceView::Custom { interval_minutes } => {
            lemma_matches_at_split(s, pos, seq!['C'], spec_enc_u64(interval_minutes));
            lemma_parse_enc_u64(s, pos + 1, interval_minutes);
        },
        RecurrenceView::Cron { expression } => {
            lemma_matches_at_split(s, pos, seq!['X'], spec_enc_str(expression));
            lemma_parse_enc_str(s, pos + 1, expression);
        },
        _ => {},
    }
}

/// A command's encoding: id, label, text, detach flag.
pub open spec fn spec_enc_item(v: CommandItemView) -> Seq<char> {
    spec_enc_str(v.id) + spec_enc_str(v.label) + spec_enc_str(v.cmd) + spec_enc_bool(
        v.is_detached,
    )
}

/// Parse a command.
pub open spec fn spec_parse_item(s: Seq<char>, pos: int) -> Option<(CommandItemView, int)> {
    match spec_parse_str(s, pos) {
        Option::Some((id, p1)) => match spec_parse_str(s, p1) {
            Option::Some((label, p2)) => match spec_parse_str(s, p2) {
                Option::Some((cmd, p3)) => match spec_parse_bool(s, p3) {
                    Option::Some((det, p4)) => Option::Some(
                        (CommandItemView { id, label, cmd, is_detached: det }, p4),
                    ),
                    Option::None => Option::None,
                },
                Option::None => Option::None,
            },
            Option::None => Option::None,
        },
        Option::None => Option::None,
    }
}

/// A command the encoding can carry: machine-sized strings.
pub open spec fn spec_item_enc_ok(v: CommandItemView) -> bool {
    v.id.len() <= u64::MAX && v.label.len() <= u64::MAX && v.cmd.len() <= u64::MAX
}

/// Parsing an encoded command from where it was written gives it back.
pub proof fn lemma_parse_enc_item(s: Seq<char>, pos: int, v: CommandItemView)
    requires
        spec_item_enc_ok(v),
        spec_matches_at(s, pos, spec_enc_item(v)),
    ensures
        spec_parse_item(s, pos) == Option::Some((v, pos + spec_enc_item(v).len())),
{
    let e1 = spec_enc_str(v.id);
    let e2 = spec_enc_str(v.label);
    let e3 = spec_enc_str(v.cmd);
    let e4 = spec_enc_bool(v.is_detached);
    assert(spec_enc_item(v) =~= e1 + (e2 + (e3 + e4)));
    lemma_matches_at_split(s, pos, e1, e2 + (e3 + e4));
    lemma_matches_at_split(s, pos + e1.len(), e2, e3 + e4);
    lemma_matches_at_split(s, pos + e1.len() + e2.len(), e3, e4);
    lemma_parse_enc_str(s, pos, v.id);
    lemma_parse_enc_str(s, pos + e1.len(), v.label);
    lemma_parse_enc_str(s, pos + e1.len() + e2.len(), v.cmd);
    lemma_parse_enc_bool(s, pos + e1.len() + e2.len() + e3.len(), v.is_detached);
}

/// A schedule's encoding: its ids, target, recurrence, anchor, flags and
/// counters, in a fixed field order.
pub open spec fn spec_enc_schedule(v: ScheduleView) -> Seq<char> {
    spec_enc_str(v.id) + spec_enc_str(v.group_id) + spec_enc_opt_str(v.command_id) + spec_enc_rec(
        v.recurrence,
    ) + spec_enc_u64(v.scheduled_time) + spec_enc_bool(v.is_active) + spec_enc_u64(v.created_at)
        + spec_enc_opt_u64(v.last_execution) + spec_enc_u64(v.next_execution) + spec_enc_u64(
        v.execution_count,
    ) + spec_enc_opt_u64(v.max_executions)
}

/// Parse a schedule.
pub open spec fn spec_parse_schedule(s: Seq<char>, pos: int) -> Option<(ScheduleView, int)> {
    match spec_parse_str(s, pos) {
        Option::Some((id, p1)) => match spec_parse_str(s, p1) {
            Option::Some((group_id, p2)) => match spec_parse_opt_str(s, p2) {
                Option::Some((command_id, p3)) => match spec_parse_rec(s, p3) {
                    Option::Some((recurrence, p4)) => match spec_parse_u64(s, p4) {
                        Option::Some((scheduled_time, p5)) => match spec_parse_bool(s, p5) {
                            Option::Some((is_active, p6)) => match spec_parse_u64(s, p6) {
                                Option::Some((created_at, p7)) => match spec_parse_opt_u64(
                                    s,
                                    p7,
                                ) {
                                    Option::Some((last_execution, p8)) => match spec_parse_u64(
                                        s,
                                        p8,
                                    ) {
                                        Option::Some((next_execution, p9)) => match spec_parse_u64(
                                            s,
                                            p9,
                                        ) {
                                            Option::Some((execution_count, p10)) => if execution_count
                                                <= u32::MAX {
                                                match spec_parse_opt_u64(s, p10) {
                                                    Option::Some((max_executions, p11)) => if match max_executions {
                                                        Option::Some(m) => m <= u32::MAX,
                                                        Option::None => true,
                                                    } {
                                                        Option::Some(
                                                            (
                                                                ScheduleView {
                                                                    id,
                                                                    group_id,
                                                                    command_id,
                                                                    recurrence,
                                                                    scheduled_time,
                                                                    is_active,
                                                                    created_at,
                                                                    last_execution,
                                                                    next_execution,
                                                                    execution_count,
                                                                    max_executions,
                                                                },
                                                                p11,
                                                            ),
                                                        )
                                                    } else {
                                                        Option::None
                                                    },
                                                    Option::None => Option::None,
                                                }
                                            } else {
                                                Option::None
                                            },
                                            Option::None => Option::None,
                                        },
                                        Option::None => Option::None,
                                    },
                                    Option::None => Option::None,
                                },
                                Option::None => Option::None,
                            },
                            Option::None => Option::None,
                        },
                        Option::None => Option::None,
                    },
                    Option::None => Option::None,
                },
                Option::None => Option::None,
            },
            Option::None => Option::None,
        },
        Option::None => Option::None,
    }
}

/// A schedule the encoding can carry: machine-sized strings, instants and
/// counters.
pub open spec fn spec_schedule_enc_ok(v: ScheduleView) -> bool {
    &&& v.id.len() <= u64::MAX
    &&& v.group_id.len() <= u64::MAX
    &&& match v.command_id {
        Option::Some(t) => t.len() <= u64::MAX,
        Option::None => true,
    }
    &&& spec_rec_enc_ok(v.recurrence)
    &&& 0 <= v.scheduled_time <= u64::MAX
    &&& 0 <= v.created_at <= u64::MAX
    &&& match v.last_execution {
        Option::Some(t) => 0 <= t <= u64::MAX,
        Option::None => true,
    }
    &&& 0 <= v.next_execution <= u64::MAX
    &&& 0 <= v.execution_count <= u32::MAX
    &&& match v.max_executions {
        Option::Some(m) => 0 <= m <= u32::MAX,
        Option::None => true,
    }
}

/// Parsing an encoded schedule from where it was written gives it back.
pub proof fn lemma_parse_enc_schedule(s: Seq<char>, pos: int, v: ScheduleView)
    requires
        spec_schedule_enc_ok(v),
        spec_matches_at(s, pos, spec_enc_schedule(v)),
    ensures
        spec_parse_schedule(s, pos) == Option::Some((v, pos + spec_enc_schedule(v).len())),
{
    let e1 = spec_enc_str(v.id);
    let e2 = spec_enc_str(v.group_id);
    let e3 = spec_enc_opt_str(v.command_id);
    let e4 = spec_enc_rec(v.recurrence);
    let e5 = spec_enc_u64(v.scheduled_time);
    let e6 = spec_enc_bool(v.is_active);
    let e7 = spec_enc_u64(v.created_at);
    let e8 = spec_enc_opt_u64(v.last_execution);
    let e9 = spec_enc_u64(v.next_execution);
    let e10 = spec_enc_u64(v.execution_count);
    let e11 = spec_enc_opt_u64(v.max_executions);
    assert(spec_enc_schedule(v) =~= e1 + (e2 + (e3 + (e4 + (e5 + (e6 + (e7 + (e8 + (e9 + (e10
        + e11))))))))));
    let p1 = pos + e1.len();
    let p2 = p1 + e2.len();
    let p3 = p2 + e3.len();
    let p4 = p3 + e4.len();
    let p5 = p4 + e5.len();
    let p6 = p5 + e6.len();
    let p7 = p6 + e7.len();
    let p8 = p7 + e8.len();
    let p9 = p8 + e9.len();
    let p10 = p9 + e10.len();
    lemma_matches_at_split(s, pos, e1, e2 + (e3 + (e4 + (e5 + (e6 + (e7 + (e8 + (e9 + (e10
        + e11)))))))));
    lemma_matches_at_split(s, p1, e2, e3 + (e4 + (e5 + (e6 + (e7 + (e8 + (e9 + (e10 + e11))))))));
    lemma_matches_at_split(s, p2, e3, e4 + (e5 + (e6 + (e7 + (e8 + (e9 + (e10 + e11)))))));
    lemma_matches_at_split(s, p3, e4, e5 + (e6 + (e7 + (e8 + (e9 + (e10 + e11))))));
    lemma_matches_at_split(s, p4, e5, e6 + (e7 + (e8 + (e9 + (e10 + e11)))));
    lemma_matches_at_split(s, p5, e6, e7 + (e8 + (e9 + (e10 + e11))));
    lemma_matches_at_split(s, p6, e7, e8 + (e9 + (e10 + e11)));
    lemma_matches_at_split(s, p7, e8, e9 + (e10 + e11));
    lemma_matches_at_split(s, p8, e9, e10 + e11);
    lemma_matches_at_split(s, p9, e10, e11);
    lemma_parse_enc_str(s, pos, v.id);
    lemma_parse_enc_str(s, p1, v.group_id);
    lemma_parse_enc_opt_str(s, p2, v.command_id);
    lemma_parse_enc_rec(s, p3, v.recurrence);
    lemma_parse_enc_u64(s, p4, v.scheduled_time);
    lemma_parse_enc_bool(s, p5, v.is_active);
    lemma_parse_enc_u64(s, p6, v.created_at);
    lemma_parse_enc_opt_u64(s, p7, v.last_execution);
    lemma_parse_enc_u64(s, p8, v.next_execution);
    lemma_parse_enc_u64(s, p9, v.execution_count);
    lemma_parse_enc_opt_u64(s, p10, v.max_executions);
}

/// A list's payload encoding: each element in order. (The element count is
/// written separately, before the payload.)
pub open spec fn spec_enc_list<T>(vs: Seq<T>, enc: spec_fn(T) -> Seq<char>) -> Seq<char>
    decreases vs.len(),
{
    if vs.len() == 0 {
        Seq::empty()
    } else {
        spec_enc_list(vs.drop_last(), enc) + enc(vs.last())
    }
}

/// Parse `n` elements in sequence.
pub open spec fn spec_parse_list<T>(
    s: Seq<char>,
    pos: int,
    n: int,
    p: spec_fn(Seq<char>, int) -> Option<(T, int)>,
) -> Option<(Seq<T>, int)>
    decreases n,
{
    if n <= 0 {
        Option::Some((Seq::empty(), pos))
    } else {
        match p(s, pos) {
            Option::Some((v, p2)) => match spec_parse_list(s, p2, n - 1, p) {
                Option::Some((vs, p3)) => Option::Some((seq![v] + vs, p3)),
                Option::None => Option::None,
            },
            Option::None => Option::None,
        }
    }
}

/// A list's encoding read from the front: the first element's encoding, then
/// the rest's.
pub proof fn lemma_enc_list_cons<T>(vs: Seq<T>, enc: spec_fn(T) -> Seq<char>)
    requires
        vs.len() > 0,
    ensures
        spec_enc_list(vs, enc) == enc(vs[0]) + spec_enc_list(vs.skip(1), enc),
    decreases vs.len(),
{
    if vs.len() == 1 {
        assert(vs.drop_last() =~= Seq::<T>::empty());
        assert(vs.skip(1) =~= Seq::<T>::empty());
        assert(spec_enc_list(vs.skip(1), enc) =~= Seq::<char>::empty());
        assert(spec_enc_list(vs, enc) =~= enc(vs[0]) + spec_enc_list(vs.skip(1), enc));
    } else {
        let dl = vs.drop_last();
        lemma_enc_list_cons(dl, enc);
        assert(vs.skip(1).drop_last() =~= dl.skip(1));
        assert(vs.skip(1).last() == vs.last());
        assert(dl[0] == vs[0]);
        assert(spec_enc_list(vs.skip(1), enc) == spec_enc_list(dl.skip(1), enc) + enc(vs.last()));
        assert(spec_enc_list(vs, enc) =~= enc(vs[0]) + spec_enc_list(vs.skip(1), enc));
    }
}

/// Parsing an encoded list from where it was written gives it back, element
/// by element, provided each element parses back from wherever its encoding
/// stands in `s`.
pub proof fn lemma_parse_enc_list<T>(
    s: Seq<char>,
    pos: int,
    vs: Seq<T>,
    enc: spec_fn(T) -> Seq<char>,
    p: spec_fn(Seq<char>, int) -> Option<(T, int)>,
)
    requires
        forall|pos2: int, k: int|
            #![trigger p(s, pos2), enc(vs[k])]
            0 <= k < vs.len() && spec_matches_at(s, pos2, enc(vs[k])) ==> p(s, pos2)
                == Option::Some((vs[k], pos2 + enc(vs[k]).len())),
        spec_matches_at(s, pos, spec_enc_list(vs, enc)),
    ensures
        spec_parse_list(s, pos, vs.len() as int, p) == Option::Some(
            (vs, pos + spec_enc_list(vs, enc).len()),
        ),
    decreases vs.len(),
{
    if vs.len() == 0 {
        assert(vs =~= Seq::<T>::empty());
    } else {
        lemma_enc_list_cons(vs, enc);
        lemma_matches_at_split(s, pos, enc(vs[0]), spec_enc_list(vs.skip(1), enc));
        let t = vs.skip(1);
        assert(p(s, pos) == Option::Some((vs[0], pos + enc(vs[0]).len())));
        assert forall|pos2: int, k: int|
            #![trigger p(s, pos2), enc(t[k])]
            0 <= k < t.len() && spec_matches_at(s, pos2, enc(t[k])) implies p(s, pos2)
            == Option::Some((t[k], pos2 + enc(t[k]).len())) by {
            assert(t[k] == vs[k + 1]);
        }
        lemma_parse_enc_list(s, pos + enc(vs[0]).len(), t, enc, p);
        assert(seq![vs[0]] + t =~= vs);
    }
}

/// The item encoder, as a function value.
pub open spec fn spec_enc_item_fn() -> spec_fn(CommandItemView) -> Seq<char> {
    |c: CommandItemView| spec_enc_item(c)
}

/// The item parser, as a function value.
pub open spec fn spec_parse_item_fn() -> spec_fn(Seq<char>, int) -> Option<(CommandItemView, int)> {
    |s: Seq<char>, pos: int| spec_parse_item(s, pos)
}

/// A group's encoding: id, title, command count, then each command.
pub open spec fn spec_enc_group(g: CommandGroupView) -> Seq<char> {
    spec_enc_str(g.id) + spec_enc_str(g.title) + spec_enc_u64(g.commands.len() as int)
        + spec_enc_list(g.commands, spec_enc_item_fn())
}

/// Parse a group.
pub open spec fn spec_parse_group(s: Seq<char>, pos: int) -> Option<(CommandGroupView, int)> {
    match spec_parse_str(s, pos) {
        Option::Some((id, p1)) => match spec_parse_str(s, p1) {
            Option::Some((title, p2)) => match spec_parse_u64(s, p2) {
                Option::Some((n, p3)) => match spec_parse_list(s, p3, n, spec_parse_item_fn()) {
                    Option::Some((commands, p4)) => Option::Some(
                        (CommandGroupView { id, title, commands }, p4),
                    ),
                    Option::None => Option::None,
                },
                Option::None => Option::None,
            },
            Option::None => Option::None,
        },
        Option::None => Option::None,
    }
}

/// A group the encoding can carry.
pub open spec fn spec_group_enc_ok(g: CommandGroupView) -> bool {
    &&& g.id.len() <= u64::MAX
    &&& g.title.len() <= u64::MAX
    &&& g.commands.len() <= u64::MAX
    &&& forall|k: int| 0 <= k < g.commands.len() ==> spec_item_enc_ok(#[trigger] g.commands[k])
}

/// Parsing an encoded group from where it was written gives it back.
pub proof fn lemma_parse_enc_group(s: Seq<char>, pos: int, g: CommandGroupView)
    requires
        spec_group_enc_ok(g),
        spec_matches_at(s, pos, spec_enc_group(g)),
    ensures
        spec_parse_group(s, pos) == Option::Some((g, pos + spec_enc_group(g).len())),
{
    let e1 = spec_enc_str(g.id);
    let e2 = spec_enc_str(g.title);
    let e3 = spec_enc_u64(g.commands.len() as int);
    let e4 = spec_enc_list(g.commands, spec_enc_item_fn());
    assert(spec_enc_group(g) =~= e1 + (e2 + (e3 + e4)));
    let p1 = pos + e1.len();
    let p2 = p1 + e2.len();
    let p3 = p2 + e3.len();
    lemma_matches_at_split(s, pos, e1, e2 + (e3 + e4));
    lemma_matches_at_split(s, p1, e2, e3 + e4);
    lemma_matches_at_split(s, p2, e3, e4);
    lemma_parse_enc_str(s, pos, g.id);
    lemma_parse_enc_str(s, p1, g.title);
    lemma_parse_enc_u64(s, p2, g.commands.len() as int);
    assert forall|pos2: int, k: int|
        #![trigger spec_parse_item_fn()(s, pos2), spec_enc_item_fn()(g.commands[k])]
        0 <= k < g.commands.len() && spec_matches_at(
            s,
            pos2,
            spec_enc_item_fn()(g.commands[k]),
        ) implies spec_parse_item_fn()(s, pos2) == Option::Some(
        (g.commands[k], pos2 + spec_enc_item_fn()(g.commands[k]).len()),
    ) by {
        lemma_parse_enc_item(s, pos2, g.commands[k]);
    }
    lemma_parse_enc_list(s, p3, g.commands, spec_enc_item_fn(), spec_parse_item_fn());
}

/// The group encoder, as a function value.
pub open spec fn spec_enc_group_fn() -> spec_fn(CommandGroupView) -> Seq<char> {
    |g: CommandGroupView| spec_enc_group(g)
}

/// The group parser, as a function value.
pub open spec fn spec_parse_group_fn() -> spec_fn(Seq<char>, int) -> Option<
    (CommandGroupView, int),
> {
    |s: Seq<char>, pos: int| spec_parse_group(s, pos)
}

/// The schedule encoder, as a function value.
pub open spec fn spec_enc_schedule_fn() -> spec_fn(ScheduleView) -> Seq<char> {
    |v: ScheduleView| spec_enc_schedule(v)
}

/// The schedule parser, as a function value.
pub open spec fn spec_parse_schedule_fn() -> spec_fn(Seq<char>, int) -> Option<
    (ScheduleView, int),
> {
    |s: Seq<char>, pos: int| spec_parse_schedule(s, pos)
}

/// The document's encoding: the group count and each group, then the
/// schedule count and each schedule.
pub open spec fn spec_enc_document(d: AppDataView) -> Seq<char> {
    spec_enc_u64(d.groups.len() as int) + spec_enc_list(d.groups, spec_enc_group_fn())
        + spec_enc_u64(d.schedules.len() as int) + spec_enc_list(
        d.schedules,
        spec_enc_schedule_fn(),
    )
}

/// Parse a document.
pub open spec fn spec_parse_document(s: Seq<char>, pos: int) -> Option<(AppDataView, int)> {
    match spec_parse_u64(s, pos) {
        Option::Some((ng, p1)) => match spec_parse_list(s, p1, ng, spec_parse_group_fn()) {
            Option::Some((groups, p2)) => match spec_parse_u64(s, p2) {
                Option::Some((ns, p3)) => match spec_parse_list(
                    s,
                    p3,
                    ns,
                    spec_parse_schedule_fn(),
                ) {
                    Option::Some((schedules, p4)) => Option::Some(
                        (AppDataView { groups, schedules }, p4),
                    ),
                    Option::None => Option::None,
                },
                Option::None => Option::None,
            },
            Option::None => Option::None,
        },
        Option::None => Option::None,
    }
}

/// A document the encoding can carry.
pub open spec fn spec_doc_enc_ok(d: AppDataView) -> bool {
    &&& d.groups.len() <= u64::MAX
    &&& d.schedules.len() <= u64::MAX
    &&& forall|k: int| 0 <= k < d.groups.len() ==> spec_group_enc_ok(#[trigger] d.groups[k])
    &&& forall|k: int|
        0 <= k < d.schedules.len() ==> spec_schedule_enc_ok(#[trigger] d.schedules[k])
}

/// Parsing an encoded document from where it was written gives it back.
pub proof fn lemma_parse_enc_document(s: Seq<char>, pos: int, d: AppDataView)
    requires
        spec_doc_enc_ok(d),
        spec_matches_at(s, pos, spec_enc_document(d)),
    ensures
        spec_parse_document(s, pos) == Option::Some((d, pos + spec_enc_document(d).len())),
{
    let e1 = spec_enc_u64(d.groups.len() as int);
    let e2 = spec_enc_list(d.groups, spec_enc_group_fn());
    let e3 = spec_enc_u64(d.schedules.len() as int);
    let e4 = spec_enc_list(d.schedules, spec_enc_schedule_fn());
    assert(spec_enc_document(d) =~= e1 + (e2 + (e3 + e4)));
    let p1 = pos + e1.len();
    let p2 = p1 + e2.len();
    let p3 = p2 + e3.len();
    lemma_matches_at_split(s, pos, e1, e2 + (e3 + e4));
    lemma_matches_at_split(s, p1, e2, e3 + e4);
    lemma_matches_at_split(s, p2, e3, e4);
    lemma_parse_enc_u64(s, pos, d.groups.len() as int);
    assert forall|pos2: int, k: int|
        #![trigger spec_parse_group_fn()(s, pos2), spec_enc_group_fn()(d.groups[k])]
        0 <= k < d.groups.len() && spec_matches_at(
            s,
            pos2,
            spec_enc_group_fn()(d.groups[k]),
        ) implies spec_parse_group_fn()(s, pos2) == Option::Some(
        (d.groups[k], pos2 + spec_enc_group_fn()(d.groups[k]).len()),
    ) by {
        lemma_parse_enc_group(s, pos2, d.groups[k]);
    }
    lemma_parse_enc_list(s, p1, d.groups, spec_enc_group_fn(), spec_parse_group_fn());
    lemma_parse_enc_u64(s, p2, d.schedules.len() as int);
    assert forall|pos2: int, k: int|
        #![trigger spec_parse_schedule_fn()(s, pos2), spec_enc_schedule_fn()(d.schedules[k])]
        0 <= k < d.schedules.len() && spec_matches_at(
            s,
            pos2,
            spec_enc_schedule_fn()(d.schedules[k]),
        ) implies spec_parse_schedule_fn()(s, pos2) == Option::Some(
        (d.schedules[k], pos2 + spec_enc_schedule_fn()(d.schedules[k]).len()),
    ) by {
        lemma_parse_enc_schedule(s, pos2, d.schedules[k]);
    }
    lemma_parse_enc_list(s, p3, d.schedules, spec_enc_schedule_fn(), spec_parse_schedule_fn());
}

/// The round trip: a document within the encoding's limits, once encoded,
/// parses back to exactly itself, consuming the whole text.
pub proof fn lemma_document_round_trip(d: AppDataView)
    requires
        spec_doc_enc_ok(d),
    ensures
        spec_parse_document(spec_enc_document(d), 0) == Option::Some(
            (d, spec_enc_document(d).len() as int),
        ),
{
    let s = spec_enc_document(d);
    assert(spec_matches_at(s, 0, s));
    lemma_parse_enc_document(s, 0, d);
}

/// Append a number's encoding.
fn enc_u64_into(out: &mut String, n: u64)
    ensures
        final(out)@ == old(out)@ + spec_enc_u64(n as int),
{
    let e = encode_u64(n);
    out.append(e.as_str());
}

/// Append a string's encoding.
fn enc_str_into(out: &mut String, t: &str)
    ensures
        final(out)@ == old(out)@ + spec_enc_str(t@),
        t@.len() <= u64::MAX,
{
    let n = t.unicode_len();
    enc_u64_into(out, n as u64);
    out.append(t);
    proof {
        assert(out@ =~= old(out)@ + spec_enc_str(t@));
    }
}

/// Append a flag's encoding.
fn enc_bool_into(out: &mut String, b: bool)
    ensures
        final(out)@ == old(out)@ + spec_enc_bool(b),
{
    proof {
        reveal_strlit("1");
        reveal_strlit("0");
    }
    if b {
        out.append("1");
    } else {
        out.append("0");
    }
    proof {
        assert(out@ =~= old(out)@ + spec_enc_bool(b));
    }
}

/// Append an optional string's encoding.
fn enc_opt_str_into(out: &mut String, o: &Option<String>)
    ensures
        final(out)@ == old(out)@ + spec_enc_opt_str(
            match o {
                Option::Some(t) => Option::Some(t@),
                Option::None => Option::None,
            },
        ),
        match o {
            Option::Some(t) => t@.len() <= u64::MAX,
            Option::None => true,
        },
{
    proof {
        reveal_strlit("1");
        reveal_strlit("0");
    }
    match o {
        Option::Some(t) => {
            out.append("1");
            enc_str_into(out, t.as_str());
            proof {
                assert(out@ =~= old(out)@ + spec_enc_opt_str(Option::Some(t@)));
            }
        },
        Option::None => {
            out.append("0");
            proof {
                assert(out@ =~= old(out)@ + spec_enc_opt_str(Option::None));
            }
        },
    }
}

/// Append an optional number's encoding.
fn enc_opt_u64_into(out: &mut String, o: Option<u64>)
    ensures
        final(out)@ == old(out)@ + spec_enc_opt_u64(
            match o {
                Option::Some(v) => Option::Some(v as int),
                Option::None => Option::None,
            },
        ),
{
    proof {
        reveal_strlit("1");
        reveal_strlit("0");
    }
    match o {
        Option::Some(v) => {
            out.append("1");
            enc_u64_into(out, v);
            proof {
                assert(out@ =~= old(out)@ + spec_enc_opt_u64(Option::Some(v as int)));
            }
        },
        Option::None => {
            out.append("0");
            proof {
                assert(out@ =~= old(out)@ + spec_enc_opt_u64(Option::None));
            }
        },
    }
}

/// Append a recurrence's encoding.
fn enc_rec_into(out: &mut String, r: &Recurrence)
    ensures
        final(out)@ == old(out)@ + spec_enc_rec(r@),
        spec_rec_enc_ok(r@),
{
    proof {
        reveal_strlit("O");
        reveal_strlit("D");
        reveal_strlit("W");
        reveal_strlit("M");
        reveal_strlit("C");
        reveal_strlit("X");
    }
    match r {
        Recurrence::Once => {
            out.append("O");
        },
        Recurrence::Daily => {
            out.append("D");
        },
        Recurrence::Weekly => {
            out.append("W");
        },
        Recurrence::Monthly => {
            out.append("M");
        },
        Recurrence::Custom { interval_minutes } => {
            out.append("C");
            enc_u64_into(out, *interval_minutes as u64);
        },
        Recurrence::Cron { expression } => {
            out.append("X");
            enc_str_into(out, expression.as_str());
        },
    }
    proof {
        assert(out@ =~= old(out)@ + spec_enc_rec(r@));
    }
}

/// Append a command's encoding.
fn enc_item_into(out: &mut String, item: &CommandItem)
    ensures
        final(out)@ == old(out)@ + spec_enc_item(item@),
        spec_item_enc_ok(item@),
{
    enc_str_into(out, item.id.as_str());
    enc_str_into(out, item.label.as_str());
    enc_str_into(out, item.cmd.as_str());
    enc_bool_into(out, item.is_detached);
    proof {
        assert(out@ =~= old(out)@ + spec_enc_item(item@));
    }
}

/// Append each command's encoding, in order.
fn enc_items_into(out: &mut String, items: &Vec<CommandItem>)
    ensures
        final(out)@ == old(out)@ + spec_enc_list(spec_item_views(items@), spec_enc_item_fn()),
        forall|k: int| 0 <= k < items@.len() ==> spec_item_enc_ok(#[trigger] items@[k]@),
{
    let n = items.len();
    proof {
        assert(out@ =~= old(out)@ + spec_enc_list(
            spec_item_views(items@).take(0),
            spec_enc_item_fn(),
        ));
    }
    let mut i: usize = 0;
    while i < n
        invariant
            n == items@.len(),
            0 <= i <= n,
            out@ == old(out)@ + spec_enc_list(spec_item_views(items@).take(i as int),
                spec_enc_item_fn()),
            forall|k: int| 0 <= k < i ==> spec_item_enc_ok(#[trigger] items@[k]@),
        decreases n - i,
    {
        enc_item_into(out, &items[i]);
        proof {
            let vs = spec_item_views(items@);
            assert(vs.take(i + 1).drop_last() =~= vs.take(i as int));
            assert(vs.take(i + 1).last() == items@[i as int]@);
            assert(out@ =~= old(out)@ + spec_enc_list(vs.take(i + 1), spec_enc_item_fn()));
        }
        i = i + 1;
    }
    proof {
        assert(spec_item_views(items@).take(n as int) =~= spec_item_views(items@));
    }
}

/// Append a group's encoding.
fn enc_group_into(out: &mut String, g: &CommandGroup)
    ensures
        final(out)@ == old(out)@ + spec_enc_group(g@),
        spec_group_enc_ok(g@),
{
    enc_str_into(out, g.id.as_str());
    enc_str_into(out, g.title.as_str());
    enc_u64_into(out, g.commands.len() as u64);
    enc_items_into(out, &g.commands);
    proof {
        assert(out@ =~= old(out)@ + spec_enc_group(g@));
        assert forall|k: int|
            0 <= k < g@.commands.len() implies spec_item_enc_ok(#[trigger] g@.commands[k]) by {
            assert(g@.commands[k] == g.commands@[k]@);
        }
    }
}

/// Append each group's encoding, in order.
fn enc_groups_into(out: &mut String, groups: &Vec<CommandGroup>)
    ensures
        final(out)@ == old(out)@ + spec_enc_list(spec_group_views(groups@), spec_enc_group_fn()),
        forall|k: int| 0 <= k < groups@.len() ==> spec_group_enc_ok(#[trigger] groups@[k]@),
{
    let n = groups.len();
    proof {
        assert(out@ =~= old(out)@ + spec_enc_list(
            spec_group_views(groups@).take(0),
            spec_enc_group_fn(),
        ));
    }
    let mut i: usize = 0;
    while i < n
        invariant
            n == groups@.len(),
            0 <= i <= n,
            out@ == old(out)@ + spec_enc_list(spec_group_views(groups@).take(i as int),
                spec_enc_group_fn()),
            forall|k: int| 0 <= k < i ==> spec_group_enc_ok(#[trigger] groups@[k]@),
        decreases n - i,
    {
        enc_group_into(out, &groups[i]);
        proof {
            let vs = spec_group_views(groups@);
            assert(vs.take(i + 1).drop_last() =~= vs.take(i as int));
            assert(vs.take(i + 1).last() == groups@[i as int]@);
            assert(out@ =~= old(out)@ + spec_enc_list(vs.take(i + 1), spec_enc_group_fn()));
        }
        i = i + 1;
    }
    proof {
        assert(spec_group_views(groups@).take(n as int) =~= spec_group_views(groups@));
    }
}

/// Append a schedule's encoding.
#[verifier::rlimit(60)]
fn enc_schedule_into(out: &mut String, v: &Schedule)
    ensures
        final(out)@ == old(out)@ + spec_enc_schedule(v@),
        spec_schedule_enc_ok(v@),
{
    enc_str_into(out, v.id.as_str());
    enc_str_into(out, v.group_id.as_str());
    enc_opt_str_into(out, &v.command_id);
    enc_rec_into(out, &v.recurrence);
    enc_u64_into(out, v.scheduled_time);
    enc_bool_into(out, v.is_active);
    enc_u64_into(out, v.created_at);
    enc_opt_u64_into(out, v.last_execution);
    enc_u64_into(out, v.next_execution);
    enc_u64_into(out, v.execution_count as u64);
    enc_opt_u64_into(
        out,
        match v.max_executions {
            Option::Some(m) => Option::Some(m as u64),
            Option::None => Option::None,
        },
    );
    proof {
        assert(out@ =~= old(out)@ + spec_enc_schedule(v@));
    }
}

/// Append each schedule's encoding, in order.
fn enc_schedules_into(out: &mut String, schedules: &Vec<Schedule>)
    ensures
        final(out)@ == old(out)@ + spec_enc_list(
            spec_schedule_views(schedules@),
            spec_enc_schedule_fn(),
        ),
        forall|k: int| 0 <= k < schedules@.len() ==> spec_schedule_enc_ok(#[trigger] schedules@[k]@),
{
    let n = schedules.len();
    proof {
        assert(out@ =~= old(out)@ + spec_enc_list(
            spec_schedule_views(schedules@).take(0),
            spec_enc_schedule_fn(),
        ));
    }
    let mut i: usize = 0;
    while i < n
        invariant
            n == schedules@.len(),
            0 <= i <= n,
            out@ == old(out)@ + spec_enc_list(spec_schedule_views(schedules@).take(i as int),
                spec_enc_schedule_fn()),
            forall|k: int| 0 <= k < i ==> spec_schedule_enc_ok(#[trigger] schedules@[k]@),
        decreases n - i,
    {
        enc_schedule_into(out, &schedules[i]);
        proof {
            let vs = spec_schedule_views(schedules@);
            assert(vs.take(i + 1).drop_last() =~= vs.take(i as int));
            assert(vs.take(i + 1).last() == schedules@[i as int]@);
            assert(out@ =~= old(out)@ + spec_enc_list(vs.take(i + 1), spec_enc_schedule_fn()));
        }
        i = i + 1;
    }
    proof {
        assert(spec_schedule_views(schedules@).take(n as int) =~= spec_schedule_views(schedules@));
    }
}

/// Encode the whole document. What comes back is within the encoding's
/// limits, so `lemma_document_round_trip` applies to it.
pub fn encode_document(d: &AppData) -> (r: String)
    ensures
        r@ == spec_enc_document(d@),
        spec_doc_enc_ok(d@),
{
    let mut out = String::new();
    enc_u64_into(&mut out, d.groups.len() as u64);
    enc_groups_into(&mut out, &d.groups);
    enc_u64_into(&mut out, d.schedules.len() as u64);
    enc_schedules_into(&mut out, &d.schedules);
    proof {
        assert(out@ =~= spec_enc_document(d@));
        assert forall|k: int|
            0 <= k < d@.groups.len() implies spec_group_enc_ok(#[trigger] d@.groups[k]) by {
            assert(d@.groups[k] == d.groups@[k]@);
        }
        assert forall|k: int|
            0 <= k < d@.schedules.len() implies spec_schedule_enc_ok(
            #[trigger] d@.schedules[k],
        ) by {
            assert(d@.schedules[k] == d.schedules@[k]@);
        }
    }
    out
}

/// Parse an optional string, executably.
fn parse_opt_string(s: &str, pos: usize) -> (r: Option<(Option<String>, usize)>)
    ensures
        match r {
            Option::Some((o, p)) => spec_parse_opt_str(s@, pos as int) == Option::Some(
                (
                    match o {
                        Option::Some(t) => Option::Some(t@),
                        Option::None => Option::None,
                    },
                    p as int,
                ),
            ),
            Option::None => spec_parse_opt_str(s@, pos as int) is None,
        },
{
    let n = s.unicode_len();
    if pos >= n {
        return Option::None;
    }
    let c = s.get_char(pos);
    if c == '0' {
        Option::Some((Option::None, pos + 1))
    } else if c == '1' {
        match parse_string(s, pos + 1) {
            Option::Some((t, p2)) => Option::Some((Option::Some(t), p2)),
            Option::None => Option::None,
        }
    } else {
        Option::None
    }
}

/// Parse an optional number, executably.
fn parse_opt_u64(s: &str, pos: usize) -> (r: Option<(Option<u64>, usize)>)
    ensures
        match r {
            Option::Some((o, p)) => spec_parse_opt_u64(s@, pos as int) == Option::Some(
                (
                    match o {
                        Option::Some(v) => Option::Some(v as int),
                        Option::None => Option::None,
                    },
                    p as int,
                ),
            ),
            Option::None => spec_parse_opt_u64(s@, pos as int) is None,
        },
{
    let n = s.unicode_len();
    if pos >= n {
        return Option::None;
    }
    let c = s.get_char(pos);
    if c == '0' {
        Option::Some((Option::None, pos + 1))
    } else if c == '1' {
        match parse_u64(s, pos + 1) {
            Option::Some((v, p2)) => Option::Some((Option::Some(v), p2)),
            Option::None => Option::None,
        }
    } else {
        Option::None
    }
}

/// Parse a recurrence, executably.
fn parse_rec(s: &str, pos: usize) -> (r: Option<(Recurrence, usize)>)
    ensures
        match r {
            Option::Some((v, p)) => spec_parse_rec(s@, pos as int) == Option::Some(
                (v@, p as int),
            ),
            Option::None => spec_parse_rec(s@, pos as int) is None,
        },
{
    let n = s.unicode_len();
    if pos >= n {
        return Option::None;
    }
    let c = s.get_char(pos);
    if c == 'O' {
        Option::Some((Recurrence::Once, pos + 1))
    } else if c == 'D' {
        Option::Some((Recurrence::Daily, pos + 1))
    } else if c == 'W' {
        Option::Some((Recurrence::Weekly, pos + 1))
    } else if c == 'M' {
        Option::Some((Recurrence::Monthly, pos + 1))
    } else if c == 'C' {
        match parse_u64(s, pos + 1) {
            Option::Some((v, p2)) => {
                if v <= u32::MAX as u64 {
                    Option::Some((Recurrence::Custom { interval_minutes: v as u32 }, p2))
                } else {
                    Option::None
                }
            },
            Option::None => Option::None,
        }
    } else if c == 'X' {
        match parse_string(s, pos + 1) {
            Option::Some((t, p2)) => Option::Some((Recurrence::Cron { expression: t }, p2)),
            Option::None => Option::None,
        }
    } else {
        Option::None
    }
}

/// Parse a command, executably.
fn parse_item(s: &str, pos: usize) -> (r: Option<(CommandItem, usize)>)
    ensures
        match r {
            Option::Some((v, p)) => spec_parse_item(s@, pos as int) == Option::Some(
                (v@, p as int),
            ),
            Option::None => spec_parse_item(s@, pos as int) is None,
        },
{
    let (id, p1) = match parse_string(s, pos) {
        Option::Some(x) => x,
        Option::None => {
            return Option::None;
        },
    };
    let (label, p2) = match parse_string(s, p1) {
        Option::Some(x) => x,
        Option::None => {
            return Option::None;
        },
    };
    let (cmd, p3) = match parse_string(s, p2) {
        Option::Some(x) => x,
        Option::None => {
            return Option::None;
        },
    };
    let (det, p4) = match parse_bool(s, p3) {
        Option::Some(x) => x,
        Option::None => {
            return Option::None;
        },
    };
    Option::Some((CommandItem { id, label, cmd, is_detached: det }, p4))
}

/// Parse `n` commands, executably.
fn parse_items(s: &str, pos: usize, n: u64) -> (r: Option<(Vec<CommandItem>, usize)>)
    ensures
        match r {
            Option::Some((v, p)) => spec_parse_list(
                s@,
                pos as int,
                n as int,
                spec_parse_item_fn(),
            ) == Option::Some((spec_item_views(v@), p as int)),
            Option::None => spec_parse_list(s@, pos as int, n as int, spec_parse_item_fn())
                is None,
        },
    decreases n,
{
    if n == 0 {
        let out: Vec<CommandItem> = Vec::new();
        proof {
            assert(spec_item_views(out@) =~= Seq::<CommandItemView>::empty());
        }
        return Option::Some((out, pos));
    }
    let (item, p2) = match parse_item(s, pos) {
        Option::Some(x) => x,
        Option::None => {
            return Option::None;
        },
    };
    let (mut rest, p3) = match parse_items(s, p2, n - 1) {
        Option::Some(x) => x,
        Option::None => {
            return Option::None;
        },
    };
    let ghost restv = spec_item_views(rest@);
    let ghost itemv = item@;
    rest.insert(0, item);
    proof {
        assert(spec_item_views(rest@) =~= seq![itemv] + restv);
    }
    Option::Some((rest, p3))
}

/// Parse a group, executably.
fn parse_group(s: &str, pos: usize) -> (r: Option<(CommandGroup, usize)>)
    ensures
        match r {
            Option::Some((v, p)) => spec_parse_group(s@, pos as int) == Option::Some(
                (v@, p as int),
            ),
            Option::None => spec_parse_group(s@, pos as int) is None,
        },
{
    let (id, p1) = match parse_string(s, pos) {
        Option::Some(x) => x,
        Option::None => {
            return Option::None;
        },
    };
    let (title, p2) = match parse_string(s, p1) {
        Option::Some(x) => x,
        Option::None => {
            return Option::None;
        },
    };
    let (n, p3) = match parse_u64(s, p2) {
        Option::Some(x) => x,
        Option::None => {
            return Option::None;
        },
    };
    let (commands, p4) = match parse_items(s, p3, n) {
        Option::Some(x) => x,
        Option::None => {
            return Option::None;
        },
    };
    Option::Some((CommandGroup { id, title, commands }, p4))
}

/// Parse `n` groups, executably.
fn parse_groups(s: &str, pos: usize, n: u64) -> (r: Option<(Vec<CommandGroup>, usize)>)
    ensures
        match r {
            Option::Some((v, p)) => spec_parse_list(
                s@,
                pos as int,
                n as int,
                spec_parse_group_fn(),
            ) == Option::Some((spec_group_views(v@), p as int)),
            Option::None => spec_parse_list(s@, pos as int, n as int, spec_parse_group_fn())
                is None,
        },
    decreases n,
{
    if n == 0 {
        let out: Vec<CommandGroup> = Vec::new();
        proof {
            assert(spec_group_views(out@) =~= Seq::<CommandGroupView>::empty());
        }
        return Option::Some((out, pos));
    }
    let (g, p2) = match parse_group(s, pos) {
        Option::Some(x) => x,
        Option::None => {
            return Option::None;
        },
    };
    let (mut rest, p3) = match parse_groups(s, p2, n - 1) {
        Option::Some(x) => x,
        Option::None => {
            return Option::None;
        },
    };
    let ghost restv = spec_group_views(rest@);
    let ghost gv = g@;
    rest.insert(0, g);
    proof {
        assert(spec_group_views(rest@) =~= seq![gv] + restv);
    }
    Option::Some((rest, p3))
}

/// Parse a schedule, executably.
fn parse_schedule(s: &str, pos: usize) -> (r: Option<(Schedule, usize)>)
    ensures
        match r {
            Option::Some((v, p)) => spec_parse_schedule(s@, pos as int) == Option::Some(
                (v@, p as int),
            ),
            Option::None => spec_parse_schedule(s@, pos as int) is None,
        },
{
    let (id, p1) = match parse_string(s, pos) {
        Option::Some(x) => x,
        Option::None => {
            return Option::None;
        },
    };
    let (group_id, p2) = match parse_string(s, p1) {
        Option::Some(x) => x,
        Option::None => {
            return Option::None;
        },
    };
    let (command_id, p3) = match parse_opt_string(s, p2) {
        Option::Some(x) => x,
        Option::None => {
            return Option::None;
        },
    };
    let (recurrence, p4) = match parse_rec(s, p3) {
        Option::Some(x) => x,
        Option::None => {
            return Option::None;
        },
    };
    let (scheduled_time, p5) = match parse_u64(s, p4) {
        Option::Some(x) => x,
        Option::None => {
            return Option::None;
        },
    };
    let (is_active, p6) = match parse_bool(s, p5) {
        Option::Some(x) => x,
        Option::None => {
            return Option::None;
        },
    };
    let (created_at, p7) = match parse_u64(s, p6) {
        Option::Some(x) => x,
        Option::None => {
            return Option::None;
        },
    };
    let (last_execution, p8) = match parse_opt_u64(s, p7) {
        Option::Some(x) => x,
        Option::None => {
            return Option::None;
        },
    };
    let (next_execution, p9) = match parse_u64(s, p8) {
        Option::Some(x) => x,
        Option::None => {
            return Option::None;
        },
    };
    let (execution_count, p10) = match parse_u64(s, p9) {
        Option::Some(x) => x,
        Option::None => {
            return Option::None;
        },
    };
    if execution_count > u32::MAX as u64 {
        return Option::None;
    }
    let (max_executions, p11) = match parse_opt_u64(s, p10) {
        Option::Some(x) => x,
        Option::None => {
            return Option::None;
        },
    };
    let max_executions: Option<u32> = match max_executions {
        Option::Some(m) => {
            if m > u32::MAX as u64 {
                return Option::None;
            }
            Option::Some(m as u32)
        },
        Option::None => Option::None,
    };
    Option::Some(
        (
            Schedule {
                id,
                group_id,
                command_id,
                recurrence,
                scheduled_time,
                is_active,
                created_at,
                last_execution,
                next_execution,
                execution_count: execution_count as u32,
                max_executions,
            },
            p11,
        ),
    )
}

/// Parse `n` schedules, executably.
fn parse_schedules(s: &str, pos: usize, n: u64) -> (r: Option<(Vec<Schedule>, usize)>)
    ensures
        match r {
            Option::Some((v, p)) => spec_parse_list(
                s@,
                pos as int,
                n as int,
                spec_parse_schedule_fn(),
            ) == Option::Some((spec_schedule_views(v@), p as int)),
            Option::None => spec_parse_list(s@, pos as int, n as int, spec_parse_schedule_fn())
                is None,
        },
    decreases n,
{
    if n == 0 {
        let out: Vec<Schedule> = Vec::new();
        proof {
            assert(spec_schedule_views(out@) =~= Seq::<ScheduleView>::empty());
        }
        return Option::Some((out, pos));
    }
    let (v, p2) = match parse_schedule(s, pos) {
        Option::Some(x) => x,
        Option::None => {
            return Option::None;
        },
    };
    let (mut rest, p3) = match parse_schedules(s, p2, n - 1) {
        Option::Some(x) => x,
        Option::None => {
            return Option::None;
        },
    };
    let ghost restv = spec_schedule_views(rest@);
    let ghost vv = v@;
    rest.insert(0, v);
    proof {
        assert(spec_schedule_views(rest@) =~= seq![vv] + restv);
    }
    Option::Some((rest, p3))
}

/// Parse the whole document from the head of the text; trailing text is left
/// alone, as a tolerant reader of persisted data should.
pub fn parse_document(s: &str) -> (r: Option<AppData>)
    ensures
        match r {
            Option::Some(d) => match spec_parse_document(s@, 0) {
                Option::Some((dv, _)) => d@ == dv,
                Option::None => false,
            },
            Option::None => spec_parse_document(s@, 0) is None,
        },
{
    let (ng, p1) = match parse_u64(s, 0) {
        Option::Some(x) => x,
        Option::None => {
            return Option::None;
        },
    };
    let (groups, p2) = match parse_groups(s, p1, ng) {
        Option::Some(x) => x,
        Option::None => {
            return Option::None;
        },
    };
    let (ns, p3) = match parse_u64(s, p2) {
        Option::Some(x) => x,
        Option::None => {
            return Option::None;
        },
    };
    let (schedules, _p4) = match parse_schedules(s, p3, ns) {
        Option::Some(x) => x,
        Option::None => {
            return Option::None;
        },
    };
    Option::Some(AppData { groups, schedules })
}

/// The merge of imported groups into current ones: each imported group whose
/// id is not yet taken is appended, in import order; a colliding id is
/// skipped and the standing group keeps its content.
pub open spec fn spec_merge_groups(
    cur: Seq<CommandGroupView>,
    imp: Seq<CommandGroupView>,
) -> Seq<CommandGroupView>
    decreases imp.len(),
{
    if imp.len() == 0 {
        cur
    } else {
        let prev = spec_merge_groups(cur, imp.drop_last());
        if spec_contains_gid(prev, imp.last().id) {
            prev
        } else {
            prev.push(imp.last())
        }
    }
}

/// How many imported groups the merge appends.
pub open spec fn spec_merge_added(cur: Seq<CommandGroupView>, imp: Seq<CommandGroupView>) -> int
    decreases imp.len(),
{
    if imp.len() == 0 {
        0
    } else {
        spec_merge_added(cur, imp.drop_last()) + if spec_contains_gid(
            spec_merge_groups(cur, imp.drop_last()),
            imp.last().id,
        ) {
            0int
        } else {
            1int
        }
    }
}

/// A merge never disturbs what was already there: the current groups stand
/// unchanged as the merged sequence's prefix, and only appended imports
/// follow. In particular a colliding import leaves the standing group's
/// content untouched.
pub proof fn lemma_merge_keeps_current(cur: Seq<CommandGroupView>, imp: Seq<CommandGroupView>)
    ensures
        spec_merge_groups(cur, imp).len() == cur.len() + spec_merge_added(cur, imp),
        0 <= spec_merge_added(cur, imp) <= imp.len(),
        forall|i: int|
            0 <= i < cur.len() ==> spec_merge_groups(cur, imp)[i] == cur[i],
    decreases imp.len(),
{
    if imp.len() > 0 {
        lemma_merge_keeps_current(cur, imp.drop_last());
    }
}

/// Merge imported groups into the current ones, reporting how many were
/// added and how many were skipped for an id collision.
pub fn merge_data(current_groups: &Vec<CommandGroup>, imported_groups: Vec<CommandGroup>) -> (r: (
    Vec<CommandGroup>,
    usize,
    usize,
))
    ensures
        spec_group_views(r.0@) == spec_merge_groups(
            spec_group_views(current_groups@),
            spec_group_views(imported_groups@),
        ),
        r.1 == spec_merge_added(
            spec_group_views(current_groups@),
            spec_group_views(imported_groups@),
        ),
        r.1 + r.2 == imported_groups@.len(),
{
    let n = imported_groups.len();
    let mut merged: Vec<CommandGroup> = Vec::new();
    let cn = current_groups.len();
    let mut ci: usize = 0;
    while ci < cn
        invariant
            cn == current_groups@.len(),
            0 <= ci <= cn,
            merged@.len() == ci,
            forall|j: int| 0 <= j < ci ==> merged@[j]@ == spec_group_views(current_groups@)[j],
        decreases cn - ci,
    {
        merged.push(current_groups[ci].clone());
        ci = ci + 1;
    }
    proof {
        assert(spec_group_views(merged@) =~= spec_group_views(current_groups@));
        assert(spec_group_views(merged@) =~= spec_merge_groups(
            spec_group_views(current_groups@),
            spec_group_views(imported_groups@).take(0),
        ));
    }
    let mut added: usize = 0;
    let mut skipped: usize = 0;
    let mut i: usize = 0;
    while i < n
        invariant
            n == imported_groups@.len(),
            0 <= i <= n,
            spec_group_views(merged@) == spec_merge_groups(
                spec_group_views(current_groups@),
                spec_group_views(imported_groups@).take(i as int),
            ),
            added == spec_merge_added(
                spec_group_views(current_groups@),
                spec_group_views(imported_groups@).take(i as int),
            ),
            added + skipped == i,
        decreases n - i,
    {
        let ghost allv = spec_group_views(imported_groups@);
        if merged_has_gid(&merged, &imported_groups[i].id) {
            skipped = skipped + 1;
        } else {
            merged.push(imported_groups[i].clone());
            added = added + 1;
        }
        proof {
            assert(allv.take(i + 1).drop_last() =~= allv.take(i as int));
            assert(allv.take(i + 1).last() == imported_groups@[i as int]@);
            assert(spec_group_views(merged@) =~= spec_merge_groups(
                spec_group_views(current_groups@),
                allv.take(i + 1),
            ));
        }
        i = i + 1;
    }
    proof {
        assert(spec_group_views(imported_groups@).take(n as int) =~= spec_group_views(
            imported_groups@,
        ));
    }
    (merged, added, skipped)
}

/// Whether some group in the vector carries the id.
fn merged_has_gid(v: &Vec<CommandGroup>, id: &String) -> (r: bool)
    ensures
        r == spec_contains_gid(spec_group_views(v@), id@),
{
    let n = v.len();
    let mut i: usize = 0;
    while i < n
        invariant
            n == v@.len(),
            0 <= i <= n,
            forall|j: int| 0 <= j < i ==> spec_group_views(v@)[j].id != id@,
        decreases n - i,
    {
        if v[i].id == *id {
            proof {
                assert(spec_group_views(v@)[i as int].id == id@);
            }
            return true;
        }
        i = i + 1;
    }
    false
}

} // verus!
