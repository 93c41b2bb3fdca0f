//! How the controllers of an application are made: the names that a struct
//! literal mentions are cloned, so that several controllers can share them.

use crate::text::join;
use crate::text::join_strings;
use crate::text::push_text;
use crate::text::views;
use vstd::prelude::*;

verus! {

/// What is known of an expression.
#[derive(Clone, Copy, Debug, PartialEq, Eq, Structural)]
pub enum ExprShape {
    /// A path.
    Path {
        /// Whether it begins with a type in angle brackets.
        qualified: bool,
        /// Whether it begins with a double colon.
        rooted: bool,
        /// How many segments it has.
        segments: usize,
        /// Whether its first segment has arguments.
        arguments: bool,
    },
    /// Anything else.
    Other,
}

/// An expression.
#[derive(Debug)]
pub struct SourceExpr {
    /// Its text.
    pub text: String,
    /// What is known of it.
    pub shape: ExprShape,
}

/// A field of a struct literal.
#[derive(Debug)]
pub struct FieldInit {
    /// The name.
    pub member: String,
    /// The value; none where the name alone stands for it.
    pub value: Option<SourceExpr>,
}

/// The expression that makes a controller.
#[derive(Debug)]
pub enum Construction {
    /// A struct literal.
    Literal {
        /// The path of the struct.
        path: String,
        /// The fields.
        fields: Vec<FieldInit>,
        /// The value that the other fields come from.
        rest: Option<SourceExpr>,
    },
    /// Anything else, by its text.
    Other(String),
}

/// Whether an expression is a name and nothing else.
pub open spec fn is_name(shape: ExprShape) -> bool {
    shape matches ExprShape::Path { qualified, rooted, segments, arguments } && !qualified
        && !rooted && segments == 1 && !arguments
}

/// Whether an expression is a name and nothing else.
pub fn is_bare_ident(shape: &ExprShape) -> (r: bool)
    ensures
        r == is_name(*shape),
{
    match shape {
        ExprShape::Path { qualified, rooted, segments, arguments } => !*qualified && !*rooted
            && *segments == 1 && !*arguments,
        ExprShape::Other => false,
    }
}

/// A field of the literal that is written: a name is cloned, any other
/// expression stays.
pub open spec fn field_text(field: FieldInit) -> Seq<char> {
    match field.value {
        None => field.member@ + ": "@ + field.member@ + ".clone()"@,
        Some(v) => if is_name(v.shape) {
            field.member@ + ": "@ + v.text@ + ".clone()"@
        } else {
            field.member@ + ": "@ + v.text@
        },
    }
}

/// The rest of the literal that is written: a name is cloned, any other
/// expression stays.
pub open spec fn rest_text(rest: SourceExpr) -> Seq<char> {
    if is_name(rest.shape) {
        "..("@ + rest.text@ + ").clone()"@
    } else {
        ".."@ + rest.text@
    }
}

/// The parts between the braces of the literal that is written.
pub open spec fn literal_parts(fields: Seq<FieldInit>, rest: Option<SourceExpr>) -> Seq<Seq<char>> {
    let written = fields.map_values(|f: FieldInit| field_text(f));
    match rest {
        Some(v) => written.push(rest_text(v)),
        None => written,
    }
}

/// The expression that is written for the one that was given.
pub open spec fn construction_text(c: Construction) -> Seq<char> {
    match c {
        Construction::Literal { path, fields, rest } => path@ + " { "@ + join(
            literal_parts(fields@, rest),
            ", "@,
        ) + " }"@,
        Construction::Other(text) => text@,
    }
}

fn write_field(field: &FieldInit) -> (r: String)
    ensures
        r@ == field_text(*field),
{
    let mut out = field.member.clone();
    push_text(&mut out, ": ");
    match &field.value {
        None => {
            push_text(&mut out, &field.member);
            push_text(&mut out, ".clone()");
        },
        Some(v) => {
            push_text(&mut out, &v.text);
            if is_bare_ident(&v.shape) {
                push_text(&mut out, ".clone()");
            }
        },
    }
    out
}

fn write_rest(rest: &SourceExpr) -> (r: String)
    ensures
        r@ == rest_text(*rest),
{
    if is_bare_ident(&rest.shape) {
        let mut out = "..(".to_owned();
        push_text(&mut out, &rest.text);
        push_text(&mut out, ").clone()");
        out
    } else {
        let mut out = "..".to_owned();
        push_text(&mut out, &rest.text);
        out
    }
}

/// Writes the expression that makes a controller: in a struct literal, names
/// are cloned.
pub fn rewrite_construction(c: &Construction) -> (r: String)
    ensures
        r@ == construction_text(*c),
{
    match c {
        Construction::Other(text) => text.clone(),
        Construction::Literal { path, fields, rest } => {
            let mut parts: Vec<String> = Vec::new();
            let mut i: usize = 0;
            while i < fields.len()
                invariant
                    i <= fields@.len(),
                    parts@.len() == i,
                    forall|k: int| 0 <= k < i ==> (#[trigger] parts@[k])@ == field_text(fields@[k]),
                decreases fields.len() - i,
            {
                parts.push(write_field(&fields[i]));
                i = i + 1;
            }
            assert(views(parts@) =~= fields@.map_values(|f: FieldInit| field_text(f)));
            let ghost written = views(parts@);
            if let Some(v) = rest {
                parts.push(write_rest(v));
                assert(views(parts@) =~= written.push(rest_text(*v)));
            }
            let mut out = path.clone();
            push_text(&mut out, " { ");
            push_text(&mut out, &join_strings(&parts, ", "));
            push_text(&mut out, " }");
            out
        },
    }
}

/// A name alone and the same name written out are cloned alike.
pub proof fn law_shorthand_is_written_out(short: FieldInit, long: FieldInit)
    requires
        short.value is None,
        short.member@ == long.member@,
        long.value matches Some(v) && is_name(v.shape) && v.text@ == short.member@,
    ensures
        field_text(short) == field_text(long),
{
}

/// A field keeps its name and its value; behind the value stands `.clone()`
/// exactly where it is one plain name. The value that the other fields come
/// from is treated alike, and an expression that is no literal stays as it is.
pub proof fn law_only_names_are_cloned(field: FieldInit, v: SourceExpr, text: String)
    requires
        field.value == Some(v),
    ensures
        ({
            let plain = v.shape matches ExprShape::Path { qualified, rooted, segments, arguments }
                && segments == 1 && !(qualified || rooted || arguments);
            &&& plain ==> field_text(field) == field.member@ + seq![':', ' '] + v.text@ + seq![
                '.',
                'c',
                'l',
                'o',
                'n',
                'e',
                '(',
                ')',
            ]
            &&& !plain ==> field_text(field) == field.member@ + seq![':', ' '] + v.text@
            &&& plain ==> rest_text(v) == seq!['.', '.', '('] + v.text@ + seq![
                ')',
                '.',
                'c',
                'l',
                'o',
                'n',
                'e',
                '(',
                ')',
            ]
            &&& !plain ==> rest_text(v) == seq!['.', '.'] + v.text@
        }),
        construction_text(Construction::Other(text)) == text@,
{
    reveal_strlit(": ");
    reveal_strlit(".clone()");
    reveal_strlit("..(");
    reveal_strlit(").clone()");
    reveal_strlit("..");
    assert(": "@ =~= seq![':', ' ']);
    assert(".clone()"@ =~= seq!['.', 'c', 'l', 'o', 'n', 'e', '(', ')']);
    assert("..("@ =~= seq!['.', '.', '(']);
    assert(").clone()"@ =~= seq![')', '.', 'c', 'l', 'o', 'n', 'e', '(', ')']);
    assert(".."@ =~= seq!['.', '.']);
}

/// A literal is written with its path, its fields in their order, and the value
/// that the other fields come from behind them.
pub proof fn law_literals_keep_their_fields(
    path: String,
    fields: Vec<FieldInit>,
    rest: Option<SourceExpr>,
    k: int,
)
    ensures
        construction_text(Construction::Literal { path, fields, rest }) == path@ + seq![' ', '{', ' ']
            + join(literal_parts(fields@, rest), seq![',', ' ']) + seq![' ', '}'],
        0 <= k < fields@.len() ==> literal_parts(fields@, rest)[k] == field_text(fields@[k]),
        literal_parts(fields@, rest).len() == fields@.len() + if rest is Some {
            1int
        } else {
            0
        },
        rest matches Some(v) ==> literal_parts(fields@, rest).last() == rest_text(v),
{
    reveal_strlit(" { ");
    reveal_strlit(" }");
    reveal_strlit(", ");
    assert(" { "@ =~= seq![' ', '{', ' ']);
    assert(" }"@ =~= seq![' ', '}']);
    assert(", "@ =~= seq![',', ' ']);
}

} // verus!
