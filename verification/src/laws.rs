//! Laws relating the renderer and the parser.
//!
//! The central statement: rendering a well-formed condition in its
//! canonical text form and parsing that text back yields the very same
//! condition, so re-serializing a parsed condition is stable.

use vstd::prelude::*;
use vstd::math::max;
use crate::condition::{
    CondView, is_ident_start, is_ident_char, is_ws, any_word, all_word, not_word,
    is_reserved_word, is_valid_name, esc_char, escape_seq, wf_cond, render_seq,
};
use crate::parser::{
    skip_ws, scan_ident, parse_string_body, parse_cond, parse_args, combine, parse_condition_seq,
};

verus! {

proof fn lemma_skip_ws_at(s: Seq<char>, i: int)
    requires
        0 <= i <= s.len(),
        i == s.len() || !is_ws(s[i]),
    ensures
        skip_ws(s, i) == i,
{
}

proof fn lemma_scan_ident_exact(s: Seq<char>, i: int, k: int)
    requires
        0 <= i <= k <= s.len(),
        forall|t: int| i <= t < k ==> is_ident_char(#[trigger] s[t]),
        k == s.len() || !is_ident_char(s[k]),
    ensures
        scan_ident(s, i) == k,
    decreases k - i,
{
    if i < k {
        lemma_scan_ident_exact(s, i + 1, k);
    }
}

/// Reading back the quoted form of a value, up to a closing quote,
/// undoes the quoting exactly.
proof fn lemma_parse_string_of_escape(s: Seq<char>, a: int, v: Seq<char>)
    requires
        0 <= a,
        a + escape_seq(v).len() < s.len(),
        s.subrange(a, a + escape_seq(v).len()) == escape_seq(v),
        s[a + escape_seq(v).len()] == '"',
    ensures
        parse_string_body(s, a) == Some((v, a + escape_seq(v).len())),
    decreases v.len(),
{
    let ev = escape_seq(v);
    let elen = ev.len() as int;
    assert forall|t: int| 0 <= t < elen implies s[a + t] == #[trigger] ev[t] by {
        assert(s.subrange(a, a + elen)[t] == s[a + t]);
    }
    if v.len() == 0 {
        assert(Seq::<char>::empty() =~= v);
        assert(s[a] == '"');
    } else {
        let c = v[0];
        let v1 = v.subrange(1, v.len() as int);
        let e1 = escape_seq(v1);
        let d = esc_char(c).len() as int;
        assert(ev == esc_char(c) + e1);
        assert(elen == d + e1.len());
        assert forall|t: int| 0 <= t < e1.len() implies s.subrange(a + d, a + d + e1.len())[t]
            == e1[t] by {
            assert(ev[d + t] == e1[t]);
            assert(s[a + (d + t)] == ev[d + t]);
            assert(s.subrange(a + d, a + d + e1.len())[t] == s[a + d + t]);
        }
        assert(s.subrange(a + d, a + d + e1.len()) =~= e1);
        lemma_parse_string_of_escape(s, a + d, v1);
        assert(parse_string_body(s, a + d) == Some((v1, a + elen)));
        if c == '"' || c == '\\' {
            assert(ev[0] == '\\' && ev[1] == c);
            assert(s[a + 0] == ev[0] && s[a + 1] == ev[1]);
            assert(seq![c] + v1 =~= v);
        } else {
            assert(ev[0] == c);
            assert(s[a + 0] == ev[0]);
            assert(seq![c] + v1 =~= v);
        }
    }
}

/// Whatever quoted value the parser reads ends at a closing quote
/// inside the input.
proof fn lemma_parse_string_range(s: Seq<char>, i: int)
    requires
        0 <= i <= s.len(),
    ensures
        (match parse_string_body(s, i) {
            Some((val, e)) => i <= e < s.len() && s[e] == '"',
            None => true,
        }),
    decreases s.len() - i,
{
    if i < s.len() {
        if s[i] == '"' {
        } else if s[i] == '\\' {
            if i + 1 < s.len() && (s[i + 1] == '"' || s[i + 1] == '\\') {
                lemma_parse_string_range(s, i + 2);
            }
        } else {
            lemma_parse_string_range(s, i + 1);
        }
    }
}

/// The canonical text of a well-formed condition is nonempty and opens
/// with an identifier character.
proof fn lemma_render_head(c: CondView)
    requires
        wf_cond(c),
    ensures
        render_seq(c).len() >= 1,
        is_ident_start(render_seq(c)[0]),
{
    match c {
        CondView::Flag { name } => {},
        CondView::KeyValue { key, value } => {
            assert(render_seq(c)[0] == key[0]);
        },
        CondView::Any { left, right } => {
            assert(render_seq(c)[0] == 'a');
        },
        CondView::All { left, right } => {
            assert(render_seq(c)[0] == 'a');
        },
        CondView::Not { inner } => {
            assert(render_seq(c)[0] == 'n');
        },
        CondView::Never => {
            assert(render_seq(c)[0] == 'a');
        },
        CondView::Always => {
            assert(render_seq(c)[0] == 'a');
        },
    }
}

#[verifier::rlimit(100)]
proof fn lemma_parse_render_any(s: Seq<char>, i: int, c: CondView)
    requires
        c is Any,
        wf_cond(c),
        0 <= i,
        i + render_seq(c).len() <= s.len(),
        s.subrange(i, i + render_seq(c).len()) == render_seq(c),
        i + render_seq(c).len() == s.len() || s[i + render_seq(c).len()] == ',' || s[i
            + render_seq(c).len()] == ')',
    ensures
        parse_cond(s, i) == Some((c, i + render_seq(c).len())),
    decreases c, 0int,
{
    let r = render_seq(c);
    let rlen = r.len() as int;
    assert forall|t: int| 0 <= t < rlen implies s[i + t] == #[trigger] r[t] by {
        assert(s.subrange(i, i + rlen)[t] == s[i + t]);
    }
    if let CondView::Any { left, right } = c {
        let rl = render_seq(*left);
        let rr = render_seq(*right);
        let ll = rl.len() as int;
        let lr = rr.len() as int;
        assert(r == seq!['a', 'n', 'y', '('] + rl + seq![','] + rr + seq![')']);
        assert(rlen == 6 + ll + lr);
        assert(r[0] == 'a' && r[1] == 'n' && r[2] == 'y' && r[3] == '(');
        assert forall|t: int| 0 <= t < ll implies #[trigger] r[4 + t] == rl[t] by {}
        assert(r[4 + ll] == ',');
        assert forall|t: int| 0 <= t < lr implies #[trigger] r[5 + ll + t] == rr[t] by {}
        assert(r[5 + ll + lr] == ')');
        assert(s[i + 0] == r[0] && s[i + 1] == r[1] && s[i + 2] == r[2] && s[i + 3] == r[3]);
        lemma_skip_ws_at(s, i);
        lemma_scan_ident_exact(s, i + 1, i + 3);
        let k = max(scan_ident(s, i + 1), i + 1);
        assert(k == i + 3);
        assert forall|t: int| 0 <= t < 3 implies s.subrange(i, i + 3)[t] == any_word()[t] by {
            assert(s.subrange(i, i + 3)[t] == s[i + t]);
        }
        assert(s.subrange(i, k) =~= any_word());
        lemma_skip_ws_at(s, k);
        let p = max(skip_ws(s, k), k);
        assert(p == i + 3 && s[p] == '(');
        assert(any_word() != not_word()) by {
            assert(any_word()[0] == 'a');
            assert(not_word()[0] == 'n');
        }
        lemma_render_head(*left);
        lemma_render_head(*right);
        // the left operand
        assert forall|t: int| 0 <= t < ll implies s.subrange(i + 4, i + 4 + ll)[t]
            == rl[t] by {
            assert(r[4 + t] == rl[t]);
            assert(s[i + (4 + t)] == r[4 + t]);
            assert(s.subrange(i + 4, i + 4 + ll)[t] == s[i + 4 + t]);
        }
        assert(s.subrange(i + 4, i + 4 + ll) =~= rl);
        assert(s[i + 4] == rl[0]);
        lemma_skip_ws_at(s, i + 4);
        assert(s[i + (4 + ll)] == r[4 + ll]);
        lemma_parse_render_at(s, i + 4, *left);
        let m = i + 4 + ll;
        assert(parse_cond(s, p + 1) == Some((*left, m)));
        lemma_skip_ws_at(s, m);
        assert(max(m, p + 2) == m);
        assert(max(skip_ws(s, m), m) == m);
        assert(s[m] == ',');
        // the right operand
        assert forall|t: int| 0 <= t < lr implies s.subrange(m + 1, m + 1 + lr)[t]
            == rr[t] by {
            assert(r[5 + ll + t] == rr[t]);
            assert(s[i + (5 + ll + t)] == r[5 + ll + t]);
            assert(s.subrange(m + 1, m + 1 + lr)[t] == s[m + 1 + t]);
        }
        assert(s.subrange(m + 1, m + 1 + lr) =~= rr);
        assert(s[m + 1] == rr[0]);
        lemma_skip_ws_at(s, m + 1);
        assert(max(skip_ws(s, m + 1), m + 1) == m + 1);
        assert(s[i + (5 + ll + lr)] == r[5 + ll + lr]);
        assert(m + 1 + lr == i + rlen - 1);
        lemma_parse_render_at(s, m + 1, *right);
        let m2 = i + rlen - 1;
        assert(parse_cond(s, m + 1) == Some((*right, m2)));
        lemma_skip_ws_at(s, m2);
        assert(max(m2, m + 2) == m2);
        assert(max(skip_ws(s, m2), m2) == m2);
        assert(s[m2] == ')');
        assert(parse_args(s, m + 1, true) == Some((*right, m2 + 1)));
        assert(combine(true, *left, *right) == c);
        assert(parse_args(s, i + 4, true) == Some((c, i + rlen)));
        assert(parse_cond(s, i) == Some((c, i + rlen)));
    }
}

#[verifier::rlimit(100)]
proof fn lemma_parse_render_all(s: Seq<char>, i: int, c: CondView)
    requires
        c is All,
        wf_cond(c),
        0 <= i,
        i + render_seq(c).len() <= s.len(),
        s.subrange(i, i + render_seq(c).len()) == render_seq(c),
        i + render_seq(c).len() == s.len() || s[i + render_seq(c).len()] == ',' || s[i
            + render_seq(c).len()] == ')',
    ensures
        parse_cond(s, i) == Some((c, i + render_seq(c).len())),
    decreases c, 0int,
{
    let r = render_seq(c);
    let rlen = r.len() as int;
    assert forall|t: int| 0 <= t < rlen implies s[i + t] == #[trigger] r[t] by {
        assert(s.subrange(i, i + rlen)[t] == s[i + t]);
    }
    if let CondView::All { left, right } = c {
        let rl = render_seq(*left);
        let rr = render_seq(*right);
        let ll = rl.len() as int;
        let lr = rr.len() as int;
        assert(r == seq!['a', 'l', 'l', '('] + rl + seq![','] + rr + seq![')']);
        assert(rlen == 6 + ll + lr);
        assert(r[0] == 'a' && r[1] == 'l' && r[2] == 'l' && r[3] == '(');
        assert forall|t: int| 0 <= t < ll implies #[trigger] r[4 + t] == rl[t] by {}
        assert(r[4 + ll] == ',');
        assert forall|t: int| 0 <= t < lr implies #[trigger] r[5 + ll + t] == rr[t] by {}
        assert(r[5 + ll + lr] == ')');
        assert(s[i + 0] == r[0] && s[i + 1] == r[1] && s[i + 2] == r[2] && s[i + 3] == r[3]);
        lemma_skip_ws_at(s, i);
        lemma_scan_ident_exact(s, i + 1, i + 3);
        let k = max(scan_ident(s, i + 1), i + 1);
        assert(k == i + 3);
        assert forall|t: int| 0 <= t < 3 implies s.subrange(i, i + 3)[t] == all_word()[t] by {
            assert(s.subrange(i, i + 3)[t] == s[i + t]);
        }
        assert(s.subrange(i, k) =~= all_word());
        lemma_skip_ws_at(s, k);
        let p = max(skip_ws(s, k), k);
        assert(p == i + 3 && s[p] == '(');
        assert(all_word() != not_word()) by {
            assert(all_word()[0] == 'a');
            assert(not_word()[0] == 'n');
        }
        assert(all_word() != any_word()) by {
            assert(all_word()[1] == 'l');
            assert(any_word()[1] == 'n');
        }
        lemma_render_head(*left);
        lemma_render_head(*right);
        // the left operand
        assert forall|t: int| 0 <= t < ll implies s.subrange(i + 4, i + 4 + ll)[t]
            == rl[t] by {
            assert(r[4 + t] == rl[t]);
            assert(s[i + (4 + t)] == r[4 + t]);
            assert(s.subrange(i + 4, i + 4 + ll)[t] == s[i + 4 + t]);
        }
        assert(s.subrange(i + 4, i + 4 + ll) =~= rl);
        assert(s[i + 4] == rl[0]);
        lemma_skip_ws_at(s, i + 4);
        assert(s[i + (4 + ll)] == r[4 + ll]);
        lemma_parse_render_at(s, i + 4, *left);
        let m = i + 4 + ll;
        assert(parse_cond(s, p + 1) == Some((*left, m)));
        lemma_skip_ws_at(s, m);
        assert(max(m, p + 2) == m);
        assert(max(skip_ws(s, m), m) == m);
        assert(s[m] == ',');
        // the right operand
        assert forall|t: int| 0 <= t < lr implies s.subrange(m + 1, m + 1 + lr)[t]
            == rr[t] by {
            assert(r[5 + ll + t] == rr[t]);
            assert(s[i + (5 + ll + t)] == r[5 + ll + t]);
            assert(s.subrange(m + 1, m + 1 + lr)[t] == s[m + 1 + t]);
        }
        assert(s.subrange(m + 1, m + 1 + lr) =~= rr);
        assert(s[m + 1] == rr[0]);
        lemma_skip_ws_at(s, m + 1);
        assert(max(skip_ws(s, m + 1), m + 1) == m + 1);
        assert(s[i + (5 + ll + lr)] == r[5 + ll + lr]);
        assert(m + 1 + lr == i + rlen - 1);
        lemma_parse_render_at(s, m + 1, *right);
        let m2 = i + rlen - 1;
        assert(parse_cond(s, m + 1) == Some((*right, m2)));
        lemma_skip_ws_at(s, m2);
        assert(max(m2, m + 2) == m2);
        assert(max(skip_ws(s, m2), m2) == m2);
        assert(s[m2] == ')');
        assert(parse_args(s, m + 1, false) == Some((*right, m2 + 1)));
        assert(combine(false, *left, *right) == c);
        assert(parse_args(s, i + 4, false) == Some((c, i + rlen)));
        assert(parse_cond(s, i) == Some((c, i + rlen)));
    }
}

/// Parsing at position `i` of an input whose next characters are the
/// canonical text of a well-formed condition `c`, followed by the end
/// of the input, a comma, or a closing parenthesis, yields exactly `c`
/// and stops right after its text.
#[verifier::rlimit(100)]
proof fn lemma_parse_render_at(s: Seq<char>, i: int, c: CondView)
    requires
        wf_cond(c),
        0 <= i,
        i + render_seq(c).len() <= s.len(),
        s.subrange(i, i + render_seq(c).len()) == render_seq(c),
        i + render_seq(c).len() == s.len() || s[i + render_seq(c).len()] == ',' || s[i
            + render_seq(c).len()] == ')',
    ensures
        parse_cond(s, i) == Some((c, i + render_seq(c).len())),
    decreases c, 1int,
{
    let r = render_seq(c);
    let rlen = r.len() as int;
    assert forall|t: int| 0 <= t < rlen implies s[i + t] == #[trigger] r[t] by {
        assert(s.subrange(i, i + rlen)[t] == s[i + t]);
    }
    match c {
        CondView::Flag { name } => {
            assert(r == name);
            assert(s[i + 0] == r[0]);
            assert(is_ident_start(s[i]));
            assert forall|t: int| i + 1 <= t < i + rlen implies is_ident_char(
                #[trigger] s[t],
            ) by {
                assert(s[i + (t - i)] == r[t - i]);
                assert(is_ident_char(name[t - i]));
            }
            lemma_skip_ws_at(s, i);
            lemma_scan_ident_exact(s, i + 1, i + rlen);
            let k = max(scan_ident(s, i + 1), i + 1);
            assert(k == i + rlen);
            assert(s.subrange(i, k) == name);
            assert(!is_reserved_word(s.subrange(i, k)));
            lemma_skip_ws_at(s, k);
            assert(parse_cond(s, i) == Some((c, i + rlen)));
        },
        CondView::KeyValue { key, value } => {
            let klen = key.len() as int;
            let ev = escape_seq(value);
            let elen = ev.len() as int;
            assert(r == key + seq!['=', '"'] + ev + seq!['"']);
            assert(rlen == klen + 3 + elen);
            assert forall|t: int| 0 <= t < klen implies #[trigger] r[t] == key[t] by {}
            assert(r[klen] == '=');
            assert(r[klen + 1] == '"');
            assert forall|t: int| 0 <= t < elen implies #[trigger] r[klen + 2 + t] == ev[t] by {}
            assert(r[klen + 2 + elen] == '"');
            assert(s[i + 0] == r[0]);
            assert(is_ident_start(s[i]));
            assert forall|t: int| i + 1 <= t < i + klen implies is_ident_char(
                #[trigger] s[t],
            ) by {
                assert(r[t - i] == key[t - i]);
                assert(s[i + (t - i)] == r[t - i]);
                assert(is_ident_char(key[t - i]));
            }
            assert(s[i + klen] == r[klen]);
            lemma_skip_ws_at(s, i);
            lemma_scan_ident_exact(s, i + 1, i + klen);
            let k = max(scan_ident(s, i + 1), i + 1);
            assert(k == i + klen);
            assert forall|t: int| 0 <= t < klen implies s.subrange(i, i + klen)[t] == key[t] by {
                assert(r[t] == key[t]);
                assert(s[i + t] == r[t]);
                assert(s.subrange(i, i + klen)[t] == s[i + t]);
            }
            assert(s.subrange(i, k) =~= key);
            assert(!is_reserved_word(s.subrange(i, k)));
            lemma_skip_ws_at(s, k);
            let p = max(skip_ws(s, k), k);
            assert(p == i + klen && s[p] == '=');
            assert(s[i + (klen + 1)] == r[klen + 1]);
            lemma_skip_ws_at(s, p + 1);
            let v = max(skip_ws(s, p + 1), p + 1);
            assert(v == i + klen + 1 && s[v] == '"');
            assert forall|t: int| 0 <= t < elen implies s.subrange(v + 1, v + 1 + elen)[t]
                == ev[t] by {
                assert(r[klen + 2 + t] == ev[t]);
                assert(s[i + (klen + 2 + t)] == r[klen + 2 + t]);
                assert(s.subrange(v + 1, v + 1 + elen)[t] == s[v + 1 + t]);
            }
            assert(s.subrange(v + 1, v + 1 + elen) =~= ev);
            assert(s[i + (klen + 2 + elen)] == r[klen + 2 + elen]);
            assert(s[v + 1 + elen] == '"');
            lemma_parse_string_of_escape(s, v + 1, value);
            assert(parse_string_body(s, v + 1) == Some((value, i + rlen - 1)));
            assert(parse_cond(s, i) == Some((c, i + rlen)));
        },
        CondView::Any { left, right } => {
            lemma_parse_render_any(s, i, c);
        },
        CondView::All { left, right } => {
            lemma_parse_render_all(s, i, c);
        },
        CondView::Not { inner } => {
            let ri = render_seq(*inner);
            let li = ri.len() as int;
            assert(r == seq!['n', 'o', 't', '('] + ri + seq![')']);
            assert(rlen == 5 + li);
            assert(r[0] == 'n' && r[1] == 'o' && r[2] == 't' && r[3] == '(');
            assert forall|t: int| 0 <= t < li implies #[trigger] r[4 + t] == ri[t] by {}
            assert(r[4 + li] == ')');
            assert(s[i + 0] == r[0] && s[i + 1] == r[1] && s[i + 2] == r[2] && s[i + 3] == r[3]);
            lemma_skip_ws_at(s, i);
            lemma_scan_ident_exact(s, i + 1, i + 3);
            let k = max(scan_ident(s, i + 1), i + 1);
            assert(k == i + 3);
            assert forall|t: int| 0 <= t < 3 implies s.subrange(i, i + 3)[t] == not_word()[t] by {
                assert(s.subrange(i, i + 3)[t] == s[i + t]);
            }
            assert(s.subrange(i, k) =~= not_word());
            lemma_skip_ws_at(s, k);
            let p = max(skip_ws(s, k), k);
            assert(p == i + 3 && s[p] == '(');
            assert forall|t: int| 0 <= t < li implies s.subrange(i + 4, i + 4 + li)[t]
                == ri[t] by {
                assert(r[4 + t] == ri[t]);
                assert(s[i + (4 + t)] == r[4 + t]);
                assert(s.subrange(i + 4, i + 4 + li)[t] == s[i + 4 + t]);
            }
            assert(s.subrange(i + 4, i + 4 + li) =~= ri);
            assert(s[i + (4 + li)] == r[4 + li]);
            lemma_parse_render_at(s, i + 4, *inner);
            let m = i + rlen - 1;
            assert(parse_cond(s, p + 1) == Some((*inner, m)));
            lemma_skip_ws_at(s, m);
            assert(max(m, p + 1) == m);
            assert(max(skip_ws(s, m), m) == m);
            assert(s[m] == ')');
            assert(parse_cond(s, i) == Some((c, i + rlen)));
        },
        CondView::Never => {
            assert(r == seq!['a', 'n', 'y', '(', ')']);
            assert(rlen == 5);
            assert(r[0] == 'a' && r[1] == 'n' && r[2] == 'y' && r[3] == '(' && r[4] == ')');
            assert(s[i + 0] == r[0] && s[i + 1] == r[1] && s[i + 2] == r[2] && s[i + 3] == r[3]
                && s[i + 4] == r[4]);
            lemma_skip_ws_at(s, i);
            lemma_scan_ident_exact(s, i + 1, i + 3);
            let k = max(scan_ident(s, i + 1), i + 1);
            assert(k == i + 3);
            assert forall|t: int| 0 <= t < 3 implies s.subrange(i, i + 3)[t] == any_word()[t] by {
                assert(s.subrange(i, i + 3)[t] == s[i + t]);
            }
            assert(s.subrange(i, k) =~= any_word());
            lemma_skip_ws_at(s, k);
            let p = max(skip_ws(s, k), k);
            assert(p == i + 3 && s[p] == '(');
            assert(any_word() != not_word()) by {
                assert(any_word()[0] == 'a');
                assert(not_word()[0] == 'n');
            }
            lemma_skip_ws_at(s, i + 4);
            assert(max(skip_ws(s, i + 4), i + 4) == i + 4);
            assert(s[i + 4] == ')');
            assert(parse_cond(s, i) == Some((c, i + rlen)));
        },
        CondView::Always => {
            assert(r == seq!['a', 'l', 'l', '(', ')']);
            assert(rlen == 5);
            assert(r[0] == 'a' && r[1] == 'l' && r[2] == 'l' && r[3] == '(' && r[4] == ')');
            assert(s[i + 0] == r[0] && s[i + 1] == r[1] && s[i + 2] == r[2] && s[i + 3] == r[3]
                && s[i + 4] == r[4]);
            lemma_skip_ws_at(s, i);
            lemma_scan_ident_exact(s, i + 1, i + 3);
            let k = max(scan_ident(s, i + 1), i + 1);
            assert(k == i + 3);
            assert forall|t: int| 0 <= t < 3 implies s.subrange(i, i + 3)[t] == all_word()[t] by {
                assert(s.subrange(i, i + 3)[t] == s[i + t]);
            }
            assert(s.subrange(i, k) =~= all_word());
            lemma_skip_ws_at(s, k);
            let p = max(skip_ws(s, k), k);
            assert(p == i + 3 && s[p] == '(');
            assert(all_word() != not_word()) by {
                assert(all_word()[0] == 'a');
                assert(not_word()[0] == 'n');
            }
            assert(all_word() != any_word()) by {
                assert(all_word()[1] == 'l');
                assert(any_word()[1] == 'n');
            }
            lemma_skip_ws_at(s, i + 4);
            assert(max(skip_ws(s, i + 4), i + 4) == i + 4);
            assert(s[i + 4] == ')');
            assert(parse_cond(s, i) == Some((c, i + rlen)));
        },
    }
}

proof fn lemma_skip_ws_range(s: Seq<char>, i: int)
    requires
        0 <= i <= s.len(),
    ensures
        i <= skip_ws(s, i) <= s.len(),
    decreases s.len() - i,
{
    if i < s.len() && is_ws(s[i]) {
        lemma_skip_ws_range(s, i + 1);
    }
}

proof fn lemma_scan_ident_range(s: Seq<char>, i: int)
    requires
        0 <= i <= s.len(),
    ensures
        i <= scan_ident(s, i) <= s.len(),
        forall|t: int| i <= t < scan_ident(s, i) ==> is_ident_char(#[trigger] s[t]),
    decreases s.len() - i,
{
    if i < s.len() && is_ident_char(s[i]) {
        lemma_scan_ident_range(s, i + 1);
    }
}

/// Whatever the parser accepts is well formed: names are valid
/// identifiers and values are free of quotes and backslashes.
#[verifier::rlimit(100)]
/// Whatever [`parse_args`] accepts is well formed, and the parse
/// advances.
proof fn lemma_parse_args_wf(s: Seq<char>, i: int, is_any: bool)
    requires
        0 <= i <= s.len(),
    ensures
        (match parse_args(s, i, is_any) {
            Some((c, j)) => wf_cond(c) && i < j <= s.len(),
            None => true,
        }),
    decreases s.len() - i, 1int,
{
    lemma_parse_wf(s, i);
    match parse_cond(s, i) {
        Some((first, m)) => {
            lemma_skip_ws_range(s, max(m, i + 1));
            let q = max(skip_ws(s, max(m, i + 1)), max(m, i + 1));
            if q < s.len() && s[q] == ')' {
            } else if q < s.len() && s[q] == ',' {
                lemma_skip_ws_range(s, q + 1);
                let w = max(skip_ws(s, q + 1), q + 1);
                if w < s.len() && s[w] == ')' {
                } else {
                    lemma_parse_args_wf(s, q + 1, is_any);
                }
            }
        },
        None => {},
    }
}

proof fn lemma_parse_wf(s: Seq<char>, i: int)
    requires
        0 <= i <= s.len(),
    ensures
        (match parse_cond(s, i) {
            Some((c, j)) => wf_cond(c) && i < j <= s.len(),
            None => true,
        }),
    decreases s.len() - i, 0int,
{
    lemma_skip_ws_range(s, i);
    let j0 = max(skip_ws(s, i), i);
    if j0 < s.len() && is_ident_start(s[j0]) {
        lemma_scan_ident_range(s, j0 + 1);
        let k = max(scan_ident(s, j0 + 1), j0 + 1);
        let word = s.subrange(j0, k);
        assert(k == scan_ident(s, j0 + 1));
        assert forall|t: int| 0 <= t < word.len() implies is_ident_char(#[trigger] word[t]) by {
            assert(word[t] == s[j0 + t]);
        }
        if is_reserved_word(word) {
            lemma_skip_ws_range(s, k);
            let p = max(skip_ws(s, k), k);
            if p < s.len() && s[p] == '(' {
                if word == not_word() {
                    lemma_parse_wf(s, p + 1);
                    match parse_cond(s, p + 1) {
                        Some((inner, m)) => {
                            lemma_skip_ws_range(s, max(m, p + 1));
                        },
                        None => {},
                    }
                } else {
                    lemma_skip_ws_range(s, p + 1);
                    let w = max(skip_ws(s, p + 1), p + 1);
                    if w < s.len() && s[w] == ')' {
                    } else {
                        lemma_parse_args_wf(s, p + 1, word == any_word());
                    }
                }
            }
        } else {
            assert(is_valid_name(word));
            lemma_skip_ws_range(s, k);
            let p = max(skip_ws(s, k), k);
            if p < s.len() && s[p] == '=' {
                lemma_skip_ws_range(s, p + 1);
                let v = max(skip_ws(s, p + 1), p + 1);
                if v < s.len() && s[v] == '"' {
                    lemma_parse_string_range(s, v + 1);
                }
            }
        }
    }
}

/// Whatever the whole-input parser accepts is well formed.
pub proof fn lemma_parse_condition_wf(s: Seq<char>)
    ensures
        (match parse_condition_seq(s) {
            Some(c) => wf_cond(c),
            None => true,
        }),
{
    lemma_parse_wf(s, 0);
}

/// Re-serializing a parsed condition is stable: parsing any accepted
/// input, rendering the result, and parsing again gives the first
/// parse back.
pub proof fn lemma_parse_render_stable(s: Seq<char>)
    requires
        parse_condition_seq(s) is Some,
    ensures
        parse_condition_seq(render_seq(parse_condition_seq(s)->Some_0)) == parse_condition_seq(s),
{
    lemma_parse_wf(s, 0);
    lemma_render_parse_round_trip(parse_condition_seq(s)->Some_0);
}

/// Round trip: rendering a well-formed condition in its canonical text
/// form and parsing that text back yields the very same condition.
pub proof fn lemma_render_parse_round_trip(c: CondView)
    requires
        wf_cond(c),
    ensures
        parse_condition_seq(render_seq(c)) == Some(c),
{
    let r = render_seq(c);
    let rlen = r.len() as int;
    assert(r.subrange(0, rlen) =~= r);
    lemma_parse_render_at(r, 0, c);
    lemma_skip_ws_at(r, rlen);
}

} // verus!
