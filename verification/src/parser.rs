//! Parser for the condition grammar.
//!
//! Grammar, with arbitrary whitespace between tokens:
//!
//! ```text
//! condition ::= name
//!             | name '=' '"' value '"'
//!             | 'any' '(' operands ')'
//!             | 'all' '(' operands ')'
//!             | 'not' '(' condition ')'
//! operands  ::= empty | condition (',' condition)* ','?
//! ```
//!
//! A name is a nonempty identifier other than `any`, `all`, `not`; a
//! value is any run of characters, with `"` and `\` written as `\"`
//! and `\\`.  An `any` or
//! `all` list folds right-associatively onto the two-operand tree:
//! `any(a, b, c)` parses as `any(a, any(b, c))`, a one-operand list as
//! the operand itself, and the empty lists as the constants `Never`
//! and `Always`.  The parser is specified by the recursive functions
//! below over `Seq<char>`; the executable parser is proved to return
//! exactly what they describe.

use vstd::prelude::*;
use vstd::math::max;
use crate::condition::{
    CondView, Condition, is_ident_start, is_ident_char, is_ws, any_word, all_word, not_word,
    is_reserved_word,
};

verus! {

/// First position at or after `i` that does not hold whitespace.
pub open spec fn skip_ws(s: Seq<char>, i: int) -> int
    decreases s.len() - i,
{
    if i >= s.len() {
        i
    } else if is_ws(s[i]) {
        skip_ws(s, i + 1)
    } else {
        i
    }
}

/// First position at or after `i` that does not hold an identifier
/// character.
pub open spec fn scan_ident(s: Seq<char>, i: int) -> int
    decreases s.len() - i,
{
    if i >= s.len() {
        i
    } else if is_ident_char(s[i]) {
        scan_ident(s, i + 1)
    } else {
        i
    }
}

/// Reads a quoted value from position `i` (just past the opening
/// quote) up to its closing quote, undoing the `\"` and `\\` escapes.
/// Returns the value and the position of the closing quote; fails on a
/// missing closing quote or a stray backslash.
pub open spec fn parse_string_body(s: Seq<char>, i: int) -> Option<(Seq<char>, int)>
    decreases s.len() - i,
{
    if i < 0 || i >= s.len() {
        None
    } else if s[i] == '"' {
        Some((Seq::empty(), i))
    } else if s[i] == '\\' {
        if i + 1 < s.len() && (s[i + 1] == '"' || s[i + 1] == '\\') {
            match parse_string_body(s, i + 2) {
                Some((rest, e)) => Some((seq![s[i + 1]] + rest, e)),
                None => None,
            }
        } else {
            None
        }
    } else {
        match parse_string_body(s, i + 1) {
            Some((rest, e)) => Some((seq![s[i]] + rest, e)),
            None => None,
        }
    }
}

/// Combines two operands of an `any` or `all` list.
pub open spec fn combine(is_any: bool, a: CondView, b: CondView) -> CondView {
    if is_any {
        CondView::Any { left: Box::new(a), right: Box::new(b) }
    } else {
        CondView::All { left: Box::new(a), right: Box::new(b) }
    }
}

/// Parses the nonempty operand list of an `any` or `all` combinator,
/// starting after the opening parenthesis or after a comma, up to and
/// including the closing parenthesis, folding the operands
/// right-associatively.
///
/// The `max` clamps only bound positions from below for the sake of the
/// recursion measure; the scans never actually move backwards.
pub open spec fn parse_args(s: Seq<char>, i: int, is_any: bool) -> Option<(CondView, int)>
    decreases s.len() - i, 1int,
{
    match parse_cond(s, i) {
        Some((first, m)) => {
            let q = max(skip_ws(s, max(m, i + 1)), max(m, i + 1));
            if q < s.len() && s[q] == ')' {
                Some((first, q + 1))
            } else if q < s.len() && s[q] == ',' {
                let w = max(skip_ws(s, q + 1), q + 1);
                if w < s.len() && s[w] == ')' {
                    // trailing comma
                    Some((first, w + 1))
                } else {
                    match parse_args(s, q + 1, is_any) {
                        Some((rest, j)) => Some((combine(is_any, first, rest), j)),
                        None => None,
                    }
                }
            } else {
                None
            }
        },
        None => None,
    }
}

/// Parses one condition starting at position `i`, returning it together
/// with the position just past its last character.
///
/// The `max` clamps only bound positions from below for the sake of the
/// recursion measure; the scans never actually move backwards.
pub open spec fn parse_cond(s: Seq<char>, i: int) -> Option<(CondView, int)>
    decreases s.len() - i, 0int,
{
    let j = max(skip_ws(s, i), i);
    if j >= s.len() {
        None
    } else if !is_ident_start(s[j]) {
        None
    } else {
        let k = max(scan_ident(s, j + 1), j + 1);
        let word = s.subrange(j, k);
        if is_reserved_word(word) {
            let p = max(skip_ws(s, k), k);
            if p < s.len() && s[p] == '(' {
                if word == not_word() {
                    match parse_cond(s, p + 1) {
                        Some((inner, m)) => {
                            let q = max(skip_ws(s, max(m, p + 1)), max(m, p + 1));
                            if q < s.len() && s[q] == ')' {
                                Some((CondView::Not { inner: Box::new(inner) }, q + 1))
                            } else {
                                None
                            }
                        },
                        None => None,
                    }
                } else {
                    let w = max(skip_ws(s, p + 1), p + 1);
                    if w < s.len() && s[w] == ')' {
                        if word == any_word() {
                            Some((CondView::Never, w + 1))
                        } else {
                            Some((CondView::Always, w + 1))
                        }
                    } else {
                        parse_args(s, p + 1, word == any_word())
                    }
                }
            } else {
                None
            }
        } else {
            let p = max(skip_ws(s, k), k);
            if p < s.len() && s[p] == '=' {
                let v = max(skip_ws(s, p + 1), p + 1);
                if v < s.len() && s[v] == '"' {
                    match parse_string_body(s, v + 1) {
                        Some((value, e)) => Some(
                            (CondView::KeyValue { key: word, value }, e + 1),
                        ),
                        None => None,
                    }
                } else {
                    None
                }
            } else {
                Some((CondView::Flag { name: word }, k))
            }
        }
    }
}

/// Parses a whole input as one condition: one condition, then nothing
/// but whitespace.
pub open spec fn parse_condition_seq(s: Seq<char>) -> Option<CondView> {
    match parse_cond(s, 0) {
        Some((c, j)) => {
            let e = max(skip_ws(s, j), j);
            if e == s.len() {
                Some(c)
            } else {
                None
            }
        },
        None => None,
    }
}

fn is_ws_exec(c: char) -> (b: bool)
    ensures
        b == is_ws(c),
{
    let u: u32 = c as u32;
    u == 32 || u == 9 || u == 10 || u == 13
}

fn is_ident_start_exec(c: char) -> (b: bool)
    ensures
        b == is_ident_start(c),
{
    let u: u32 = c as u32;
    (65 <= u && u <= 90) || (97 <= u && u <= 122) || u == 95
}

fn is_ident_char_exec(c: char) -> (b: bool)
    ensures
        b == is_ident_char(c),
{
    let u: u32 = c as u32;
    is_ident_start_exec(c) || (48 <= u && u <= 57)
}

/// Executable counterpart of [`parse_string_body`]: reads a quoted
/// value up to its closing quote, undoing the escapes.
fn parse_string_at(s: &str, i: usize, n: usize) -> (r: Option<(String, usize)>)
    requires
        s@.len() == n as nat,
        i <= n,
    ensures
        (match r {
            Some((v, e)) => i <= e < n && parse_string_body(s@, i as int) == Some(
                (v@, e as int),
            ),
            None => parse_string_body(s@, i as int) is None,
        }),
{
    let mut acc = String::new();
    let mut cur: usize = i;
    proof {
        match parse_string_body(s@, i as int) {
            Some((rest, e)) => {
                assert(Seq::<char>::empty() + rest =~= rest);
            },
            None => {},
        }
    }
    loop
        invariant
            i <= cur <= n,
            s@.len() == n as nat,
            (match parse_string_body(s@, cur as int) {
                Some((rest, e)) => parse_string_body(s@, i as int) == Some((acc@ + rest, e)),
                None => parse_string_body(s@, i as int) is None,
            }),
        decreases n - cur,
    {
        if cur >= n {
            return None;
        }
        let c = s.get_char(cur);
        if c == '"' {
            proof {
                assert(acc@ + Seq::<char>::empty() =~= acc@);
            }
            return Some((acc, cur));
        } else if c == '\\' {
            if cur + 1 >= n {
                return None;
            }
            let c2 = s.get_char(cur + 1);
            let ghost acc0 = acc@;
            if c2 == '"' {
                acc.append("\"");
            } else if c2 == '\\' {
                acc.append("\\");
            } else {
                return None;
            }
            proof {
                reveal_strlit("\"");
                reveal_strlit("\\");
                assert(acc@ =~= acc0 + seq![c2]);
                match parse_string_body(s@, cur as int + 2) {
                    Some((rest, e)) => {
                        assert(parse_string_body(s@, cur as int) == Some(
                            (seq![c2] + rest, e),
                        ));
                        assert(acc0 + (seq![c2] + rest) =~= (acc0 + seq![c2]) + rest);
                    },
                    None => {},
                }
            }
            cur = cur + 2;
        } else {
            let ghost acc0 = acc@;
            acc.append(s.substring_char(cur, cur + 1));
            proof {
                assert(s@.subrange(cur as int, cur as int + 1) =~= seq![s@[cur as int]]);
                assert(acc@ =~= acc0 + seq![c]);
                match parse_string_body(s@, cur as int + 1) {
                    Some((rest, e)) => {
                        assert(parse_string_body(s@, cur as int) == Some((seq![c] + rest, e)));
                        assert(acc0 + (seq![c] + rest) =~= (acc0 + seq![c]) + rest);
                    },
                    None => {},
                }
            }
            cur = cur + 1;
        }
    }
}

fn skip_ws_exec(s: &str, i: usize, n: usize) -> (j: usize)
    requires
        s@.len() == n as nat,
        i <= n,
    ensures
        i <= j <= n,
        j as int == skip_ws(s@, i as int),
{
    let mut cur: usize = i;
    while cur < n && is_ws_exec(s.get_char(cur))
        invariant
            i <= cur <= n,
            s@.len() == n as nat,
            skip_ws(s@, i as int) == skip_ws(s@, cur as int),
        decreases n - cur,
    {
        cur = cur + 1;
    }
    cur
}

fn scan_ident_exec(s: &str, i: usize, n: usize) -> (j: usize)
    requires
        s@.len() == n as nat,
        i <= n,
    ensures
        i <= j <= n,
        j as int == scan_ident(s@, i as int),
{
    let mut cur: usize = i;
    while cur < n && is_ident_char_exec(s.get_char(cur))
        invariant
            i <= cur <= n,
            s@.len() == n as nat,
            scan_ident(s@, i as int) == scan_ident(s@, cur as int),
        decreases n - cur,
    {
        cur = cur + 1;
    }
    cur
}

/// Executable counterpart of [`parse_args`].
fn parse_args_at(s: &str, i: usize, n: usize, is_any: bool) -> (r: Option<(Condition, usize)>)
    requires
        s@.len() == n as nat,
        i <= n,
    ensures
        (match r {
            Some((c, j)) => i < j <= n && parse_args(s@, i as int, is_any) == Some(
                (c@, j as int),
            ),
            None => parse_args(s@, i as int, is_any) is None,
        }),
    decreases n - i, 1int,
{
    match parse_cond_at(s, i, n) {
        None => None,
        Some((first, m)) => {
            let q = skip_ws_exec(s, m, n);
            if q >= n {
                return None;
            }
            let ch = s.get_char(q);
            if ch == ')' {
                Some((first, q + 1))
            } else if ch == ',' {
                let w = skip_ws_exec(s, q + 1, n);
                if w < n && s.get_char(w) == ')' {
                    return Some((first, w + 1));
                }
                match parse_args_at(s, q + 1, n, is_any) {
                    None => None,
                    Some((rest, j)) => {
                        let c = if is_any {
                            Condition::Any { left: Box::new(first), right: Box::new(rest) }
                        } else {
                            Condition::All { left: Box::new(first), right: Box::new(rest) }
                        };
                        Some((c, j))
                    },
                }
            } else {
                None
            }
        },
    }
}

/// Executable counterpart of [`parse_cond`].
fn parse_cond_at(s: &str, i: usize, n: usize) -> (r: Option<(Condition, usize)>)
    requires
        s@.len() == n as nat,
        i <= n,
    ensures
        (match r {
            Some((c, j)) => i < j <= n && parse_cond(s@, i as int) == Some((c@, j as int)),
            None => parse_cond(s@, i as int) is None,
        }),
    decreases n - i, 0int,
{
    let j = skip_ws_exec(s, i, n);
    if j >= n {
        return None;
    }
    let c0 = s.get_char(j);
    if !is_ident_start_exec(c0) {
        return None;
    }
    let k = scan_ident_exec(s, j + 1, n);
    let ghost word = s@.subrange(j as int, k as int);
    // 0 = plain name, 1 = `any`, 2 = `all`, 3 = `not`
    let mut kind: u8 = 0;
    if k - j == 3 {
        let c1 = s.get_char(j + 1);
        let c2 = s.get_char(j + 2);
        if c0 == 'a' && c1 == 'n' && c2 == 'y' {
            kind = 1;
            proof {
                assert(word =~= any_word());
            }
        } else if c0 == 'a' && c1 == 'l' && c2 == 'l' {
            kind = 2;
            proof {
                assert(word =~= all_word());
            }
        } else if c0 == 'n' && c1 == 'o' && c2 == 't' {
            kind = 3;
            proof {
                assert(word =~= not_word());
            }
        } else {
            proof {
                assert(word[0] == c0 && word[1] == c1 && word[2] == c2);
                assert(!is_reserved_word(word));
            }
        }
    } else {
        proof {
            assert(word.len() != 3);
            assert(!is_reserved_word(word));
        }
    }
    if kind >= 1 {
        let p = skip_ws_exec(s, k, n);
        if p >= n {
            return None;
        }
        if s.get_char(p) != '(' {
            return None;
        }
        if kind == 3 {
            match parse_cond_at(s, p + 1, n) {
                None => None,
                Some((inner, m)) => {
                    let q = skip_ws_exec(s, m, n);
                    if q >= n {
                        return None;
                    }
                    if s.get_char(q) != ')' {
                        return None;
                    }
                    Some((Condition::Not { inner: Box::new(inner) }, q + 1))
                },
            }
        } else {
            proof {
                if kind == 2 {
                    assert(all_word()[0] == 'a' && all_word()[1] == 'l');
                    assert(any_word()[0] == 'a' && any_word()[1] == 'n');
                }
            }
            let w = skip_ws_exec(s, p + 1, n);
            if w < n && s.get_char(w) == ')' {
                if kind == 1 {
                    Some((Condition::Never, w + 1))
                } else {
                    Some((Condition::Always, w + 1))
                }
            } else {
                parse_args_at(s, p + 1, n, kind == 1)
            }
        }
    } else {
        let p = skip_ws_exec(s, k, n);
        if p < n && s.get_char(p) == '=' {
            let v = skip_ws_exec(s, p + 1, n);
            if v >= n {
                return None;
            }
            if s.get_char(v) != '"' {
                return None;
            }
            match parse_string_at(s, v + 1, n) {
                None => None,
                Some((value, e)) => {
                    let key = String::from_str(s.substring_char(j, k));
                    Some((Condition::KeyValue { key, value }, e + 1))
                },
            }
        } else {
            let name = String::from_str(s.substring_char(j, k));
            Some((Condition::Flag { name }, k))
        }
    }
}

/// Parses a whole input as one condition of the grammar.
///
/// Returns `Some(c)` exactly when [`parse_condition_seq`] accepts the
/// input, and then `c` is the parsed condition.
pub fn parse_condition(s: &str) -> (r: Option<Condition>)
    ensures
        (match r {
            Some(c) => parse_condition_seq(s@) == Some(c@),
            None => parse_condition_seq(s@) is None,
        }),
{
    let n = s.unicode_len();
    match parse_cond_at(s, 0, n) {
        Some((c, j)) => {
            let e = skip_ws_exec(s, j, n);
            if e == n {
                Some(c)
            } else {
                None
            }
        },
        None => None,
    }
}

/// Parses a whole input as one quoted string literal, returning its
/// contents.
///
/// Returns `Some(v)` exactly when [`parse_flag_literal_seq`] accepts
/// the input, and then `v` holds the characters between the quotes.
pub fn parse_flag_literal(s: &str) -> (r: Option<String>)
    ensures
        (match r {
            Some(v) => parse_flag_literal_seq(s@) == Some(v@),
            None => parse_flag_literal_seq(s@) is None,
        }),
{
    let n = s.unicode_len();
    let i = skip_ws_exec(s, 0, n);
    if i >= n {
        return None;
    }
    if s.get_char(i) != '"' {
        return None;
    }
    match parse_string_at(s, i + 1, n) {
        None => None,
        Some((value, e)) => {
            let p = skip_ws_exec(s, e + 1, n);
            if p != n {
                return None;
            }
            Some(value)
        },
    }
}

/// Parses a whole input as one quoted string literal, returning its
/// contents.
pub open spec fn parse_flag_literal_seq(s: Seq<char>) -> Option<Seq<char>> {
    let i = max(skip_ws(s, 0), 0);
    if i < s.len() && s[i] == '"' {
        match parse_string_body(s, i + 1) {
            Some((value, e)) => {
                let p = max(skip_ws(s, e + 1), e + 1);
                if p == s.len() {
                    Some(value)
                } else {
                    None
                }
            },
            None => None,
        }
    } else {
        None
    }
}

} // verus!
