//! Character-level text primitives shared by the probe-output parsers:
//! character classes, maximal runs, splitting, tokenizing, trimming,
//! substring search and decimal parsing, each with a spec-level definition
//! over `Seq<char>`.

use vstd::prelude::*;

verus! {

/// Classes of characters that the probe grammars distinguish.
#[derive(Clone, Copy)]
pub enum CharClass {
    /// Whitespace: space, tab, carriage return, newline.
    Ws,
    /// Anything that is not whitespace.
    NonWs,
    /// An ASCII decimal digit.
    Digit,
    /// A word character: ASCII letter, digit or underscore.
    Word,
    /// A character of a dotted-quad address: digit or dot.
    IpChar,
    /// A character of a hardware address: hex digit or colon.
    MacChar,
    /// Any character except the given one.
    NotChar(char),
}

pub open spec fn ws_char(c: char) -> bool {
    c == ' ' || c == '\t' || c == '\r' || c == '\n'
}

pub open spec fn digit_char(c: char) -> bool {
    48 <= (c as u32) && (c as u32) <= 57
}

pub open spec fn word_char(c: char) -> bool {
    digit_char(c) || (65 <= (c as u32) && (c as u32) <= 90) || (97 <= (c as u32) && (c as u32)
        <= 122) || c == '_'
}

pub open spec fn hex_char(c: char) -> bool {
    digit_char(c) || (65 <= (c as u32) && (c as u32) <= 70) || (97 <= (c as u32) && (c as u32)
        <= 102)
}

pub open spec fn char_in_class(cls: CharClass, c: char) -> bool {
    match cls {
        CharClass::Ws => ws_char(c),
        CharClass::NonWs => !ws_char(c),
        CharClass::Digit => digit_char(c),
        CharClass::Word => word_char(c),
        CharClass::IpChar => digit_char(c) || c == '.',
        CharClass::MacChar => hex_char(c) || c == ':',
        CharClass::NotChar(x) => c != x,
    }
}

pub fn char_in_class_exec(cls: CharClass, c: char) -> (b: bool)
    ensures
        b == char_in_class(cls, c),
{
    match cls {
        CharClass::Ws => c == ' ' || c == '\t' || c == '\r' || c == '\n',
        CharClass::NonWs => !(c == ' ' || c == '\t' || c == '\r' || c == '\n'),
        CharClass::Digit => {
            let u = c as u32;
            48 <= u && u <= 57
        },
        CharClass::Word => {
            let u = c as u32;
            (48 <= u && u <= 57) || (65 <= u && u <= 90) || (97 <= u && u <= 122) || c == '_'
        },
        CharClass::IpChar => {
            let u = c as u32;
            (48 <= u && u <= 57) || c == '.'
        },
        CharClass::MacChar => {
            let u = c as u32;
            (48 <= u && u <= 57) || (65 <= u && u <= 70) || (97 <= u && u <= 102) || c == ':'
        },
        CharClass::NotChar(x) => c != x,
    }
}

/// End of the maximal run of characters of class `cls` that starts at `i`.
pub open spec fn run_end(s: Seq<char>, i: int, cls: CharClass) -> int
    decreases s.len() - i,
{
    if i < 0 || i >= s.len() || !char_in_class(cls, s[i]) {
        i
    } else {
        run_end(s, i + 1, cls)
    }
}

pub proof fn lemma_run_end(s: Seq<char>, i: int, cls: CharClass)
    requires
        0 <= i <= s.len(),
    ensures
        i <= run_end(s, i, cls) <= s.len(),
        forall|j: int| i <= j < run_end(s, i, cls) ==> char_in_class(cls, #[trigger] s[j]),
        run_end(s, i, cls) < s.len() ==> !char_in_class(cls, s[run_end(s, i, cls)]),
    decreases s.len() - i,
{
    if i < s.len() && char_in_class(cls, s[i]) {
        lemma_run_end(s, i + 1, cls);
    }
}

pub fn run_end_exec(s: &str, i: usize, cls: CharClass) -> (e: usize)
    requires
        i <= s@.len(),
    ensures
        e as int == run_end(s@, i as int, cls),
        i <= e <= s@.len(),
    decreases s@.len() - i,
{
    proof {
        lemma_run_end(s@, i as int, cls);
    }
    if i < s.unicode_len() {
        let c = s.get_char(i);
        if char_in_class_exec(cls, c) {
            return run_end_exec(s, i + 1, cls);
        }
    }
    i
}

/// The pieces of `s` split on every occurrence of `sep`. Empty pieces are
/// kept, so the result always holds at least one piece.
pub open spec fn spec_split(s: Seq<char>, sep: char) -> Seq<Seq<char>>
    decreases s.len(),
{
    if s.len() == 0 {
        seq![Seq::<char>::empty()]
    } else if s.first() == sep {
        seq![Seq::<char>::empty()] + spec_split(s.drop_first(), sep)
    } else {
        let r = spec_split(s.drop_first(), sep);
        seq![seq![s.first()] + r.first()] + r.drop_first()
    }
}

pub proof fn lemma_split_len(s: Seq<char>, sep: char)
    ensures
        spec_split(s, sep).len() >= 1,
    decreases s.len(),
{
    if s.len() > 0 {
        lemma_split_len(s.drop_first(), sep);
    }
}

/// Appends one character to a string.
///
/// Relies on `String::push`: the string grows by exactly that character.
#[verifier::external_body]
fn push_char(s: &mut String, c: char)
    ensures
        final(s)@ == old(s)@ + seq![c],
{
    s.push(c);
}

pub fn char_string(c: char) -> (r: String)
    ensures
        r@ == seq![c],
{
    let mut s = String::new();
    push_char(&mut s, c);
    proof {
        assert(s@ =~= seq![c]);
    }
    s
}

pub fn split_on(s: &str, sep: char) -> (r: Vec<String>)
    ensures
        r.deep_view() == spec_split(s@, sep),
        r@.len() >= 1,
    decreases s@.len(),
{
    let n = s.unicode_len();
    if n == 0 {
        let mut r: Vec<String> = Vec::new();
        r.push(String::new());
        proof {
            assert(r.deep_view() =~= spec_split(s@, sep));
        }
        r
    } else {
        let c = s.get_char(0);
        let rest = s.substring_char(1, n);
        proof {
            assert(rest@ =~= s@.drop_first());
        }
        let mut r = split_on(rest, sep);
        if c == sep {
            r.insert(0, String::new());
            proof {
                assert(r.deep_view() =~= spec_split(s@, sep));
            }
            r
        } else {
            let h = r.remove(0);
            let mut nh = char_string(c);
            nh.append(h.as_str());
            r.insert(0, nh);
            proof {
                let spec_r = spec_split(s@.drop_first(), sep);
                assert(nh@ =~= seq![s@.first()] + spec_r.first());
                assert(r.deep_view() =~= spec_split(s@, sep));
            }
            r
        }
    }
}

/// Law: splitting strictly on a separator that does not occur in `s` yields
/// exactly the one piece `s`.
pub proof fn lemma_split_no_sep(s: Seq<char>, sep: char)
    requires
        forall|i: int| 0 <= i < s.len() ==> #[trigger] s[i] != sep,
    ensures
        spec_split(s, sep) =~~= seq![s],
    decreases s.len(),
{
    if s.len() > 0 {
        lemma_split_no_sep(s.drop_first(), sep);
        assert(seq![s.first()] + s.drop_first() =~= s);
        assert(spec_split(s, sep) =~~= seq![s]);
    }
}

/// Law: splitting text that opens with a separator-free prefix and a
/// separator yields that prefix as the first piece, followed by the pieces
/// of the rest.
pub proof fn lemma_split_prefix(a: Seq<char>, b: Seq<char>, sep: char)
    requires
        forall|i: int| 0 <= i < a.len() ==> #[trigger] a[i] != sep,
    ensures
        spec_split(a + seq![sep] + b, sep) == seq![a] + spec_split(b, sep),
    decreases a.len(),
{
    let s = a + seq![sep] + b;
    if a.len() == 0 {
        assert(s.first() == sep);
        assert(s.drop_first() =~= b);
        assert(a =~= Seq::<char>::empty());
        assert(spec_split(s, sep) =~~= seq![a] + spec_split(b, sep));
    } else {
        assert(s.first() == a[0]);
        assert(s.drop_first() =~= a.drop_first() + seq![sep] + b);
        lemma_split_prefix(a.drop_first(), b, sep);
        let r = spec_split(s.drop_first(), sep);
        assert(r.first() == a.drop_first());
        assert(seq![s.first()] + r.first() =~= a);
        assert(r.drop_first() =~= spec_split(b, sep));
        assert(spec_split(s, sep) =~~= seq![a] + spec_split(b, sep));
    }
}

/// The whitespace-separated tokens of `s`, in order. No token is empty.
pub open spec fn spec_tokens(s: Seq<char>) -> Seq<Seq<char>>
    decreases s.len(),
{
    if s.len() == 0 {
        Seq::<Seq<char>>::empty()
    } else if ws_char(s.first()) {
        spec_tokens(s.drop_first())
    } else {
        let r = spec_tokens(s.drop_first());
        if s.len() > 1 && !ws_char(s[1]) {
            seq![seq![s.first()] + r.first()] + r.drop_first()
        } else {
            seq![seq![s.first()]] + r
        }
    }
}

pub proof fn lemma_tokens_nonempty(s: Seq<char>)
    requires
        s.len() > 0,
        !ws_char(s.first()),
    ensures
        spec_tokens(s).len() >= 1,
    decreases s.len(),
{
    if s.len() > 1 && !ws_char(s[1]) {
        lemma_tokens_nonempty(s.drop_first());
    }
}

pub fn tokens_of(s: &str) -> (r: Vec<String>)
    ensures
        r.deep_view() == spec_tokens(s@),
    decreases s@.len(),
{
    let n = s.unicode_len();
    if n == 0 {
        let r: Vec<String> = Vec::new();
        proof {
            assert(r.deep_view() =~= spec_tokens(s@));
        }
        r
    } else {
        let c = s.get_char(0);
        let rest = s.substring_char(1, n);
        proof {
            assert(rest@ =~= s@.drop_first());
        }
        if char_in_class_exec(CharClass::Ws, c) {
            tokens_of(rest)
        } else {
            let mut r = tokens_of(rest);
            if n > 1 && !char_in_class_exec(CharClass::Ws, s.get_char(1)) {
                proof {
                    lemma_tokens_nonempty(rest@);
                    assert(r@.len() == r.deep_view().len());
                }
                let h = r.remove(0);
                let mut nh = char_string(c);
                nh.append(h.as_str());
                r.insert(0, nh);
                proof {
                    let spec_r = spec_tokens(s@.drop_first());
                    assert(nh@ =~= seq![s@.first()] + spec_r.first());
                    assert(r.deep_view() =~= spec_tokens(s@));
                }
                r
            } else {
                let nh = char_string(c);
                r.insert(0, nh);
                proof {
                    assert(r.deep_view() =~= spec_tokens(s@));
                }
                r
            }
        }
    }
}

pub open spec fn trim_start(s: Seq<char>) -> Seq<char>
    decreases s.len(),
{
    if s.len() > 0 && ws_char(s.first()) {
        trim_start(s.drop_first())
    } else {
        s
    }
}

pub open spec fn trim_end(s: Seq<char>) -> Seq<char>
    decreases s.len(),
{
    if s.len() > 0 && ws_char(s.last()) {
        trim_end(s.drop_last())
    } else {
        s
    }
}

/// `s` with leading and trailing whitespace removed.
pub open spec fn spec_trim(s: Seq<char>) -> Seq<char> {
    trim_end(trim_start(s))
}

fn trim_start_exec(s: &str) -> (r: String)
    ensures
        r@ == trim_start(s@),
    decreases s@.len(),
{
    let n = s.unicode_len();
    if n > 0 && char_in_class_exec(CharClass::Ws, s.get_char(0)) {
        let rest = s.substring_char(1, n);
        proof {
            assert(rest@ =~= s@.drop_first());
        }
        trim_start_exec(rest)
    } else {
        s.to_owned()
    }
}

fn trim_end_exec(s: &str) -> (r: String)
    ensures
        r@ == trim_end(s@),
    decreases s@.len(),
{
    let n = s.unicode_len();
    if n > 0 && char_in_class_exec(CharClass::Ws, s.get_char(n - 1)) {
        let rest = s.substring_char(0, n - 1);
        proof {
            assert(rest@ =~= s@.drop_last());
        }
        trim_end_exec(rest)
    } else {
        s.to_owned()
    }
}

pub fn trim_str(s: &str) -> (r: String)
    ensures
        r@ == spec_trim(s@),
{
    let t = trim_start_exec(s);
    trim_end_exec(t.as_str())
}

/// The pattern `pat` occurs in `s` starting at position `i`.
pub open spec fn sub_at(s: Seq<char>, pat: Seq<char>, i: int) -> bool {
    0 <= i && i + pat.len() <= s.len() && s.subrange(i, i + pat.len()) == pat
}

/// The first position at or after `i` where `pat` occurs in `s`.
pub open spec fn find_sub(s: Seq<char>, pat: Seq<char>, i: int) -> Option<int>
    decreases s.len() - i,
{
    if i < 0 || i >= s.len() {
        None
    } else if sub_at(s, pat, i) {
        Some(i)
    } else {
        find_sub(s, pat, i + 1)
    }
}

pub open spec fn spec_contains(s: Seq<char>, pat: Seq<char>) -> bool {
    find_sub(s, pat, 0) is Some
}

pub fn match_at(s: &str, pat: &str, i: usize) -> (b: bool)
    requires
        i <= s@.len(),
    ensures
        b == sub_at(s@, pat@, i as int),
{
    let n = s.unicode_len();
    let pl = pat.unicode_len();
    if n - i < pl {
        return false;
    }
    for j in 0..pl
        invariant
            i + pl <= n,
            n == s@.len(),
            pl == pat@.len(),
            forall|k: int| 0 <= k < j ==> s@[i + k] == #[trigger] pat@[k],
    {
        if s.get_char(i + j) != pat.get_char(j) {
            proof {
                assert(!sub_at(s@, pat@, i as int)) by {
                    if sub_at(s@, pat@, i as int) {
                        assert(s@.subrange(i as int, i + pl)[j as int] == pat@[j as int]);
                    }
                }
            }
            return false;
        }
    }
    proof {
        assert(s@.subrange(i as int, i + pl) =~= pat@);
    }
    true
}

pub fn find_sub_exec(s: &str, pat: &str, i: usize) -> (r: Option<usize>)
    requires
        i <= s@.len(),
    ensures
        match r {
            Some(k) => find_sub(s@, pat@, i as int) == Some(k as int) && i <= k < s@.len(),
            None => find_sub(s@, pat@, i as int) is None,
        },
    decreases s@.len() - i,
{
    if i >= s.unicode_len() {
        None
    } else if match_at(s, pat, i) {
        Some(i)
    } else {
        find_sub_exec(s, pat, i + 1)
    }
}

pub fn contains_sub(s: &str, pat: &str) -> (b: bool)
    ensures
        b == spec_contains(s@, pat@),
{
    match find_sub_exec(s, pat, 0) {
        Some(_) => true,
        None => false,
    }
}

/// `s` with every non-overlapping occurrence of `pat` removed, scanning from
/// the left.
pub open spec fn spec_remove_all(s: Seq<char>, pat: Seq<char>) -> Seq<char>
    decreases s.len(),
{
    if pat.len() == 0 || s.len() == 0 {
        s
    } else if sub_at(s, pat, 0) {
        spec_remove_all(s.subrange(pat.len() as int, s.len() as int), pat)
    } else {
        seq![s.first()] + spec_remove_all(s.drop_first(), pat)
    }
}

pub fn remove_all(s: &str, pat: &str) -> (r: String)
    ensures
        r@ == spec_remove_all(s@, pat@),
    decreases s@.len(),
{
    let n = s.unicode_len();
    let pl = pat.unicode_len();
    if pl == 0 || n == 0 {
        s.to_owned()
    } else if match_at(s, pat, 0) {
        remove_all(s.substring_char(pl, n), pat)
    } else {
        let rest = s.substring_char(1, n);
        proof {
            assert(rest@ =~= s@.drop_first());
        }
        let mut r = char_string(s.get_char(0));
        let tail = remove_all(rest, pat);
        r.append(tail.as_str());
        proof {
            assert(r@ =~= seq![s@.first()] + spec_remove_all(s@.drop_first(), pat@));
        }
        r
    }
}

pub open spec fn digit_val(c: char) -> nat {
    ((c as u32) - 48) as nat
}

pub open spec fn all_digits(s: Seq<char>) -> bool {
    s.len() > 0 && forall|i: int| 0 <= i < s.len() ==> digit_char(#[trigger] s[i])
}

/// The value of a sequence of decimal digits, most significant first.
pub open spec fn digits_val(s: Seq<char>) -> nat
    decreases s.len(),
{
    if s.len() == 0 {
        0
    } else {
        digits_val(s.drop_last()) * 10 + digit_val(s.last())
    }
}

/// The value a decimal-digit string denotes: defined exactly when the string
/// is non-empty, holds digits only, and its value fits in a `u64`.
pub open spec fn spec_parse_u64(s: Seq<char>) -> Option<u64> {
    if all_digits(s) && digits_val(s) <= u64::MAX {
        Some(digits_val(s) as u64)
    } else {
        None
    }
}

proof fn lemma_digits_val_mono(s: Seq<char>, j: int)
    requires
        0 <= j <= s.len(),
    ensures
        digits_val(s.subrange(0, j)) <= digits_val(s),
    decreases s.len() - j,
{
    if j == s.len() {
        assert(s.subrange(0, j) =~= s);
    } else {
        assert(s.subrange(0, j + 1).drop_last() =~= s.subrange(0, j));
        assert(s.subrange(0, j + 1).last() == s[j]);
        lemma_digits_val_mono(s, j + 1);
    }
}

pub fn parse_u64(s: &str) -> (r: Option<u64>)
    ensures
        r == spec_parse_u64(s@),
{
    let n = s.unicode_len();
    if n == 0 {
        return None;
    }
    let mut acc: u64 = 0;
    for i in 0..n
        invariant
            n == s@.len(),
            forall|k: int| 0 <= k < i ==> digit_char(#[trigger] s@[k]),
            acc as nat == digits_val(s@.subrange(0, i as int)),
    {
        let c = s.get_char(i);
        let u = c as u32;
        if !(48 <= u && u <= 57) {
            return None;
        }
        let d = (u - 48) as u64;
        proof {
            assert(s@.subrange(0, i + 1).drop_last() =~= s@.subrange(0, i as int));
            assert(s@.subrange(0, i + 1).last() == s@[i as int]);
        }
        let m = match acc.checked_mul(10) {
            Some(m) => m,
            None => {
                proof {
                    lemma_digits_val_mono(s@, i + 1);
                }
                return None;
            },
        };
        acc = match m.checked_add(d) {
            Some(v) => v,
            None => {
                proof {
                    lemma_digits_val_mono(s@, i + 1);
                }
                return None;
            },
        };
    }
    proof {
        assert(s@.subrange(0, n as int) =~= s@);
    }
    Some(acc)
}

/// The value of a decimal token where any failure collapses to zero, as a
/// defensive parser reports it.
pub open spec fn spec_parse_u64_or_zero(s: Seq<char>) -> u64 {
    match spec_parse_u64(s) {
        Some(v) => v,
        None => 0,
    }
}

pub fn parse_u64_or_zero(s: &str) -> (r: u64)
    ensures
        r == spec_parse_u64_or_zero(s@),
{
    match parse_u64(s) {
        Some(v) => v,
        None => 0,
    }
}

/// As `spec_parse_u64_or_zero`, narrowed to the width of an MTU field.
pub open spec fn spec_parse_u32_or_zero(s: Seq<char>) -> u32 {
    match spec_parse_u64(s) {
        Some(v) => if v <= u32::MAX as u64 {
            v as u32
        } else {
            0
        },
        None => 0,
    }
}

pub fn parse_u32_or_zero(s: &str) -> (r: u32)
    ensures
        r == spec_parse_u32_or_zero(s@),
{
    match parse_u64(s) {
        Some(v) => if v <= u32::MAX as u64 {
            v as u32
        } else {
            0
        },
        None => 0,
    }
}

} // verus!
