//! The declaration gate.
//!
//! Pairs a parsed condition with a declaration.  The build-inclusion
//! annotation always carries the condition; a documentation annotation
//! with the same condition is added exactly when a documentation build
//! is active.  The declaration text itself is never inspected and
//! comes through unchanged.

use vstd::prelude::*;
use crate::condition::{Condition, CondView, cond_view, render_seq};
use crate::parser::{
    parse_condition, parse_flag_literal, parse_condition_seq, parse_flag_literal_seq,
};

verus! {

/// Why a gate request was rejected.
#[derive(Debug, Clone, Copy, PartialEq, Eq, Structural)]
pub enum ConfigError {
    /// The condition argument was empty.
    MissingConfiguration,
    /// The condition argument does not parse under the expected grammar.
    InvalidConfiguration,
}

/// A gated declaration: the original declaration together with its
/// build-inclusion condition and, in a documentation build, the
/// documentation condition.
#[derive(Debug, PartialEq, Eq)]
pub struct GatedDeclaration {
    /// Condition under which the declaration is included in the build.
    pub build_condition: Condition,
    /// Condition shown by the documentation generator; present exactly
    /// when the documentation build is active.
    pub doc_condition: Option<Condition>,
    /// The declaration itself, reproduced unchanged.
    pub declaration: String,
}

/// Mathematical model of a [`GatedDeclaration`].
#[verifier::ext_equal]
pub struct GatedView {
    pub build: CondView,
    pub doc: Option<CondView>,
    pub decl: Seq<char>,
}

impl View for GatedDeclaration {
    type V = GatedView;

    open spec fn view(&self) -> GatedView {
        GatedView {
            build: cond_view(self.build_condition),
            doc: match self.doc_condition {
                Some(c) => Some(cond_view(c)),
                None => None,
            },
            decl: self.declaration@,
        }
    }
}

/// The flag key that the simple surface tests: `feature`.
pub open spec fn feature_key() -> Seq<char> {
    seq!['f', 'e', 'a', 't', 'u', 'r', 'e']
}

/// Gates a declaration on a single feature flag.
///
/// `flag_text` must hold one quoted string literal naming the feature;
/// the resulting build-inclusion condition is `feature = "<name>"`.
/// An empty argument is rejected as [`ConfigError::MissingConfiguration`],
/// anything but a single string literal as
/// [`ConfigError::InvalidConfiguration`].  The declaration is carried
/// over unchanged, and the documentation condition is present, equal to
/// the build condition, exactly when `docs_active` is set.
pub fn gate_simple(flag_text: &str, declaration: &str, docs_active: bool) -> (r: Result<
    GatedDeclaration,
    ConfigError,
>)
    ensures
        flag_text@.len() == 0 ==> r == Err::<GatedDeclaration, ConfigError>(
            ConfigError::MissingConfiguration,
        ),
        flag_text@.len() > 0 && parse_flag_literal_seq(flag_text@) is None ==> r == Err::<
            GatedDeclaration,
            ConfigError,
        >(ConfigError::InvalidConfiguration),
        flag_text@.len() > 0 ==> (parse_flag_literal_seq(flag_text@) matches Some(name) ==> (
        r matches Ok(g) && g@.build == (CondView::KeyValue { key: feature_key(), value: name })
            && g@.doc == (if docs_active {
            Some(g@.build)
        } else {
            None::<CondView>
        }) && g@.decl == declaration@)),
{
    if flag_text.unicode_len() == 0 {
        return Err(ConfigError::MissingConfiguration);
    }
    match parse_flag_literal(flag_text) {
        None => Err(ConfigError::InvalidConfiguration),
        Some(value) => {
            let build = Condition::KeyValue { key: String::from_str("feature"), value };
            let doc = if docs_active {
                Some(build.duplicate())
            } else {
                None
            };
            let g = GatedDeclaration {
                build_condition: build,
                doc_condition: doc,
                declaration: String::from_str(declaration),
            };
            proof {
                reveal_strlit("feature");
                assert("feature"@ =~= feature_key());
                assert(g@.build =~= (CondView::KeyValue {
                    key: feature_key(),
                    value: parse_flag_literal_seq(flag_text@)->Some_0,
                }));
            }
            Ok(g)
        },
    }
}

/// Gates a declaration on a full boolean condition.
///
/// `condition_text` must parse under the condition grammar; the
/// resulting build-inclusion condition is its parse.  An empty argument
/// is rejected as [`ConfigError::MissingConfiguration`], an argument
/// the grammar refuses as [`ConfigError::InvalidConfiguration`].  The
/// declaration is carried over unchanged, and the documentation
/// condition is present, equal to the build condition, exactly when
/// `docs_active` is set.
pub fn gate_general(condition_text: &str, declaration: &str, docs_active: bool) -> (r: Result<
    GatedDeclaration,
    ConfigError,
>)
    ensures
        condition_text@.len() == 0 ==> r == Err::<GatedDeclaration, ConfigError>(
            ConfigError::MissingConfiguration,
        ),
        condition_text@.len() > 0 && parse_condition_seq(condition_text@) is None ==> r == Err::<
            GatedDeclaration,
            ConfigError,
        >(ConfigError::InvalidConfiguration),
        condition_text@.len() > 0 ==> (parse_condition_seq(condition_text@) matches Some(c) ==> (
        r matches Ok(g) && g@.build == c && g@.doc == (if docs_active {
            Some(c)
        } else {
            None::<CondView>
        }) && g@.decl == declaration@)),
{
    if condition_text.unicode_len() == 0 {
        return Err(ConfigError::MissingConfiguration);
    }
    match parse_condition(condition_text) {
        None => Err(ConfigError::InvalidConfiguration),
        Some(build) => {
            let doc = if docs_active {
                Some(build.duplicate())
            } else {
                None
            };
            Ok(
                GatedDeclaration {
                    build_condition: build,
                    doc_condition: doc,
                    declaration: String::from_str(declaration),
                },
            )
        },
    }
}

/// Text of the build-inclusion annotation opening: `@if(`.
pub open spec fn if_open() -> Seq<char> {
    seq!['@', 'i', 'f', '(']
}

/// Text of the documentation annotation opening: `@doc_requires(`.
pub open spec fn doc_open() -> Seq<char> {
    seq!['@', 'd', 'o', 'c', '_', 'r', 'e', 'q', 'u', 'i', 'r', 'e', 's', '(']
}

/// Text closing an annotation and its line: `)` then a line break.
pub open spec fn close_line() -> Seq<char> {
    seq![')', '\n']
}

/// Text of a gated declaration: the build-inclusion annotation first,
/// then the documentation annotation if present, then the declaration,
/// byte for byte.
pub open spec fn render_gated_seq(g: GatedView) -> Seq<char> {
    if_open() + render_seq(g.build) + close_line() + (match g.doc {
        Some(c) => doc_open() + render_seq(c) + close_line(),
        None => Seq::<char>::empty(),
    }) + g.decl
}

/// Renders a gated declaration as text, annotations first, in the
/// order (build-inclusion, documentation), then the declaration
/// unchanged.
pub fn render_gated(g: &GatedDeclaration) -> (out: String)
    ensures
        out@ == render_gated_seq(g@),
{
    let mut out = String::from_str("@if(");
    out.append(g.build_condition.render().as_str());
    out.append(")\n");
    match &g.doc_condition {
        Some(c) => {
            out.append("@doc_requires(");
            out.append(c.render().as_str());
            out.append(")\n");
            out.append(g.declaration.as_str());
            proof {
                reveal_strlit("@if(");
                reveal_strlit(")\n");
                reveal_strlit("@doc_requires(");
                assert(out@ =~= render_gated_seq(g@));
            }
        },
        None => {
            out.append(g.declaration.as_str());
            proof {
                reveal_strlit("@if(");
                reveal_strlit(")\n");
                assert(out@ =~= render_gated_seq(g@));
            }
        },
    }
    out
}

} // verus!
