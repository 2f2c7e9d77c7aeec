//! The condition language: boolean expressions over named flags.
//!
//! A condition is either a bare flag name, a `key = "value"` test, or a
//! combination of two conditions with `any` (or), `all` (and), or a
//! negation with `not`.  The executable type [`Condition`] carries owned
//! strings; its mathematical model [`CondView`] carries character
//! sequences.

use vstd::prelude::*;

verus! {

/// Mathematical model of a condition: the same tree shape as
/// [`Condition`], over `Seq<char>`.
#[verifier::ext_equal]
pub enum CondView {
    Flag { name: Seq<char> },
    KeyValue { key: Seq<char>, value: Seq<char> },
    Any { left: Box<CondView>, right: Box<CondView> },
    All { left: Box<CondView>, right: Box<CondView> },
    Not { inner: Box<CondView> },
    /// The empty disjunction `any()`: never satisfied.
    Never,
    /// The empty conjunction `all()`: always satisfied.
    Always,
}

/// A parsed condition over named boolean flags.
///
/// Once built, a condition is immutable and side-effect-free to inspect.
#[derive(Debug, PartialEq, Eq)]
pub enum Condition {
    Flag { name: String },
    KeyValue { key: String, value: String },
    Any { left: Box<Condition>, right: Box<Condition> },
    All { left: Box<Condition>, right: Box<Condition> },
    Not { inner: Box<Condition> },
    /// The empty disjunction `any()`: never satisfied.
    Never,
    /// The empty conjunction `all()`: always satisfied.
    Always,
}

pub open spec fn cond_view(c: Condition) -> CondView
    decreases c,
{
    match c {
        Condition::Flag { name } => CondView::Flag { name: name@ },
        Condition::KeyValue { key, value } => CondView::KeyValue { key: key@, value: value@ },
        Condition::Any { left, right } => CondView::Any {
            left: Box::new(cond_view(*left)),
            right: Box::new(cond_view(*right)),
        },
        Condition::All { left, right } => CondView::All {
            left: Box::new(cond_view(*left)),
            right: Box::new(cond_view(*right)),
        },
        Condition::Not { inner } => CondView::Not { inner: Box::new(cond_view(*inner)) },
        Condition::Never => CondView::Never,
        Condition::Always => CondView::Always,
    }
}

impl View for Condition {
    type V = CondView;

    open spec fn view(&self) -> CondView {
        cond_view(*self)
    }
}

/// Character class of the first character of a flag or key name.
pub open spec fn is_ident_start(c: char) -> bool {
    (65 <= c as u32 && c as u32 <= 90)  // 'A'..='Z'
    || (97 <= c as u32 && c as u32 <= 122)  // 'a'..='z'
    || c as u32 == 95  // '_'
}

/// Character class of the remaining characters of a flag or key name.
pub open spec fn is_ident_char(c: char) -> bool {
    is_ident_start(c) || (48 <= c as u32 && c as u32 <= 57)  // '0'..='9'
}

/// Whitespace accepted between tokens of the condition grammar.
pub open spec fn is_ws(c: char) -> bool {
    c as u32 == 32 || c as u32 == 9 || c as u32 == 10 || c as u32 == 13
}

pub open spec fn any_word() -> Seq<char> {
    seq!['a', 'n', 'y']
}

pub open spec fn all_word() -> Seq<char> {
    seq!['a', 'l', 'l']
}

pub open spec fn not_word() -> Seq<char> {
    seq!['n', 'o', 't']
}

/// The reserved combinator names, which cannot serve as flag or key names.
pub open spec fn is_reserved_word(s: Seq<char>) -> bool {
    s == any_word() || s == all_word() || s == not_word()
}

/// A valid flag or key name: a nonempty identifier that is not a
/// reserved combinator name.
pub open spec fn is_valid_name(s: Seq<char>) -> bool {
    &&& s.len() >= 1
    &&& is_ident_start(s[0])
    &&& forall|t: int| 0 <= t < s.len() ==> is_ident_char(#[trigger] s[t])
    &&& !is_reserved_word(s)
}

/// The quoted form of one value character: quotes and backslashes take
/// a backslash escape, every other character stands as itself.
pub open spec fn esc_char(c: char) -> Seq<char> {
    if c == '"' || c == '\\' {
        seq!['\\', c]
    } else {
        seq![c]
    }
}

/// The quoted form of a value: each character in its [`esc_char`] form.
pub open spec fn escape_seq(v: Seq<char>) -> Seq<char>
    decreases v.len(),
{
    if v.len() == 0 {
        Seq::empty()
    } else {
        esc_char(v[0]) + escape_seq(v.subrange(1, v.len() as int))
    }
}

/// Well-formedness of a condition: every name is a valid identifier.
/// Values are unconstrained: quoting escapes what needs escaping.
pub open spec fn wf_cond(c: CondView) -> bool
    decreases c,
{
    match c {
        CondView::Flag { name } => is_valid_name(name),
        CondView::KeyValue { key, value } => is_valid_name(key),
        CondView::Any { left, right } => wf_cond(*left) && wf_cond(*right),
        CondView::All { left, right } => wf_cond(*left) && wf_cond(*right),
        CondView::Not { inner } => wf_cond(*inner),
        CondView::Never => true,
        CondView::Always => true,
    }
}

/// Canonical text of a condition: no whitespace, values quoted with
/// their quotes and backslashes escaped.
pub open spec fn render_seq(c: CondView) -> Seq<char>
    decreases c,
{
    match c {
        CondView::Flag { name } => name,
        CondView::KeyValue { key, value } => key + seq!['=', '"'] + escape_seq(value) + seq!['"'],
        CondView::Any { left, right } => seq!['a', 'n', 'y', '('] + render_seq(*left) + seq![',']
            + render_seq(*right) + seq![')'],
        CondView::All { left, right } => seq!['a', 'l', 'l', '('] + render_seq(*left) + seq![',']
            + render_seq(*right) + seq![')'],
        CondView::Not { inner } => seq!['n', 'o', 't', '('] + render_seq(*inner) + seq![')'],
        CondView::Never => seq!['a', 'n', 'y', '(', ')'],
        CondView::Always => seq!['a', 'l', 'l', '(', ')'],
    }
}

/// Quoting one more character extends the quoted form by that
/// character's [`esc_char`] form.
proof fn lemma_escape_snoc(v: Seq<char>, i: int)
    requires
        0 <= i < v.len(),
    ensures
        escape_seq(v.subrange(0, i + 1)) == escape_seq(v.subrange(0, i)) + esc_char(v[i]),
    decreases i,
{
    let a = v.subrange(0, i + 1);
    let b = v.subrange(0, i);
    if i == 0 {
        assert(b =~= Seq::<char>::empty());
        assert(a.len() == 1 && a[0] == v[0]);
        assert(a.subrange(1, 1) =~= Seq::<char>::empty());
        assert(escape_seq(a) == esc_char(v[0]) + escape_seq(a.subrange(1, 1)));
        assert(esc_char(v[0]) + Seq::<char>::empty() =~= esc_char(v[0]));
        assert(Seq::<char>::empty() + esc_char(v[0]) =~= esc_char(v[0]));
    } else {
        let vt = v.subrange(1, v.len() as int);
        lemma_escape_snoc(vt, i - 1);
        assert(vt[i - 1] == v[i]);
        assert(vt.subrange(0, i) =~= v.subrange(1, i + 1));
        assert(vt.subrange(0, i - 1) =~= v.subrange(1, i));
        assert(a[0] == v[0] && b[0] == v[0]);
        assert(a.subrange(1, a.len() as int) =~= v.subrange(1, i + 1));
        assert(b.subrange(1, b.len() as int) =~= v.subrange(1, i));
        assert(escape_seq(a) == esc_char(v[0]) + escape_seq(v.subrange(1, i + 1)));
        assert(escape_seq(b) == esc_char(v[0]) + escape_seq(v.subrange(1, i)));
        assert(escape_seq(v.subrange(1, i + 1)) == escape_seq(v.subrange(1, i)) + esc_char(
            v[i],
        ));
        assert(esc_char(v[0]) + (escape_seq(v.subrange(1, i)) + esc_char(v[i])) =~= (esc_char(
            v[0],
        ) + escape_seq(v.subrange(1, i))) + esc_char(v[i]));
    }
}

/// Renders a value in its quoted form, escaping quotes and backslashes.
fn escape_value(v: &str) -> (out: String)
    ensures
        out@ == escape_seq(v@),
{
    let n = v.unicode_len();
    let mut out = String::new();
    let mut i: usize = 0;
    while i < n
        invariant
            i <= n,
            v@.len() == n as nat,
            out@ == escape_seq(v@.subrange(0, i as int)),
        decreases n - i,
    {
        let c = v.get_char(i);
        if c == '"' {
            out.append("\\\"");
        } else if c == '\\' {
            out.append("\\\\");
        } else {
            out.append(v.substring_char(i, i + 1));
        }
        proof {
            reveal_strlit("\\\"");
            reveal_strlit("\\\\");
            lemma_escape_snoc(v@, i as int);
            assert(v@.subrange(i as int, i as int + 1) =~= seq![v@[i as int]]);
            assert(out@ =~= escape_seq(v@.subrange(0, i as int + 1)));
        }
        i = i + 1;
    }
    proof {
        assert(v@.subrange(0, n as int) =~= v@);
    }
    out
}

impl Condition {
    /// Builds an equal copy of this condition.
    pub fn duplicate(&self) -> (r: Condition)
        ensures
            r@ == self@,
        decreases *self,
    {
        match self {
            Condition::Flag { name } => Condition::Flag { name: name.clone() },
            Condition::KeyValue { key, value } => Condition::KeyValue {
                key: key.clone(),
                value: value.clone(),
            },
            Condition::Any { left, right } => Condition::Any {
                left: Box::new(left.duplicate()),
                right: Box::new(right.duplicate()),
            },
            Condition::All { left, right } => Condition::All {
                left: Box::new(left.duplicate()),
                right: Box::new(right.duplicate()),
            },
            Condition::Not { inner } => Condition::Not { inner: Box::new(inner.duplicate()) },
            Condition::Never => Condition::Never,
            Condition::Always => Condition::Always,
        }
    }

    /// Renders this condition in its canonical text form.
    pub fn render(&self) -> (out: String)
        ensures
            out@ == render_seq(self@),
        decreases *self,
    {
        match self {
            Condition::Flag { name } => name.clone(),
            Condition::KeyValue { key, value } => {
                let mut out = key.clone();
                out.append("=\"");
                out.append(escape_value(value.as_str()).as_str());
                out.append("\"");
                proof {
                    reveal_strlit("=\"");
                    reveal_strlit("\"");
                    assert(out@ =~= render_seq(self@));
                }
                out
            },
            Condition::Any { left, right } => {
                let mut out = String::from_str("any(");
                out.append(left.render().as_str());
                out.append(",");
                out.append(right.render().as_str());
                out.append(")");
                proof {
                    reveal_strlit("any(");
                    reveal_strlit(",");
                    reveal_strlit(")");
                    assert(out@ =~= render_seq(self@));
                }
                out
            },
            Condition::All { left, right } => {
                let mut out = String::from_str("all(");
                out.append(left.render().as_str());
                out.append(",");
                out.append(right.render().as_str());
                out.append(")");
                proof {
                    reveal_strlit("all(");
                    reveal_strlit(",");
                    reveal_strlit(")");
                    assert(out@ =~= render_seq(self@));
                }
                out
            },
            Condition::Not { inner } => {
                let mut out = String::from_str("not(");
                out.append(inner.render().as_str());
                out.append(")");
                proof {
                    reveal_strlit("not(");
                    reveal_strlit(")");
                    assert(out@ =~= render_seq(self@));
                }
                out
            },
            Condition::Never => {
                let out = String::from_str("any()");
                proof {
                    reveal_strlit("any()");
                    assert(out@ =~= render_seq(self@));
                }
                out
            },
            Condition::Always => {
                let out = String::from_str("all()");
                proof {
                    reveal_strlit("all()");
                    assert(out@ =~= render_seq(self@));
                }
                out
            },
        }
    }
}

} // verus!
