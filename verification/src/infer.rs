use crate::decimal::{
    decimal, integer_of, is_digit, lemma_decimal_nat, lemma_integer_of_decimal, parse_integer,
};
use crate::path::render;
use crate::number::{parse_double, parsed_double};
use crate::text::{chars_of, lower, reads_as, reads_as_word};
use crate::value::{number_tree, Tree, Value};
use serde_json::Number;
use vstd::prelude::*;

verus! {

/// The word for what holds.
pub open spec fn word_true() -> Seq<char> {
    seq!['t', 'r', 'u', 'e']
}

/// The word for what does not hold.
pub open spec fn word_false() -> Seq<char> {
    seq!['f', 'a', 'l', 's', 'e']
}

/// What a cell denotes where its text alone decides: nothing for the empty
/// cell, a truth value for `true` and `false` in any case of letters, an
/// integer for a base-ten integer of 64 bits; `None` for every other cell.
pub open spec fn typed_exactly(cell: Seq<char>) -> Option<Tree> {
    if cell.len() == 0 {
        Some(Tree::Null)
    } else if reads_as(cell, word_true()) {
        Some(Tree::Bool(true))
    } else if reads_as(cell, word_false()) {
        Some(Tree::Bool(false))
    } else {
        match integer_of(cell) {
            Some(i) => Some(Tree::Integer(i)),
            None => None,
        }
    }
}

/// What a cell denotes that `typed_exactly` leaves open, given the text of
/// the finite double that was read from it, if one was: that number, else
/// the cell's own text.
pub open spec fn typed_otherwise(cell: Seq<char>, double: Option<Seq<char>>) -> Tree {
    match double {
        Some(text) => Tree::Float(text),
        None => Tree::Text(cell),
    }
}

/// What a cell of a table denotes.
pub open spec fn typed(cell: Seq<char>) -> Tree {
    match typed_exactly(cell) {
        Some(tree) => tree,
        None => typed_otherwise(cell, parsed_double(cell)),
    }
}

/// Type inference gives back what was written into a cell, where that was
/// nothing, a truth value or an integer of 64 bits.
pub proof fn lemma_typed_inverts_render(tree: Tree)
    requires
        tree is Null || tree is Bool || (tree matches Tree::Integer(i) && -0x8000_0000_0000_0000
            <= i <= 0x7fff_ffff_ffff_ffff),
    ensures
        typed(render(tree)) == tree,
{
    match tree {
        Tree::Bool(b) => {
            let cell = render(tree);
            if b {
                assert(reads_as(cell, word_true()));
            } else {
                assert(reads_as(cell, word_false()));
            }
        },
        Tree::Integer(i) => {
            let cell = decimal(i);
            lemma_integer_of_decimal(i);
            lemma_decimal_nat(if i < 0 {
                (-i) as nat
            } else {
                i as nat
            });
            assert(cell.len() > 0);
            assert(cell[0] == '-' || is_digit(cell[0]));
            assert(lower(cell[0]) != 't');
            assert(lower(cell[0]) != 'f');
            assert(word_true()[0] == 't');
            assert(word_false()[0] == 'f');
        },
        _ => {},
    }
}

/// The first three rules of type inference: the empty cell, the truth values
/// and the integers.
pub fn infer_exactly(cell: &str) -> (r: Option<Value>)
    ensures
        match r {
            Some(value) => typed_exactly(cell@) == Some(value@),
            None => typed_exactly(cell@) is None,
        },
{
    let chars = chars_of(cell);
    if chars.len() == 0 {
        return Some(Value::Null);
    }
    proof {
        reveal_strlit("true");
        reveal_strlit("false");
        assert("true"@ =~= word_true());
        assert("false"@ =~= word_false());
    }
    if reads_as_word(&chars, "true") {
        return Some(Value::Bool(true));
    }
    if reads_as_word(&chars, "false") {
        return Some(Value::Bool(false));
    }
    match parse_integer(cell) {
        Some(i) => Some(Value::Integer(i)),
        None => None,
    }
}

/// The last two rules of type inference, for a cell that the first three
/// leave open: `double` is the finite double that was read from the cell, if
/// one was.
pub fn infer_otherwise(cell: &str, double: Option<Number>) -> (value: Value)
    ensures
        value@ == match double {
            Some(n) => number_tree(n),
            None => Tree::Text(cell@),
        },
{
    match double {
        Some(n) => Value::Float(n),
        None => Value::String(String::from_str(cell)),
    }
}

/// Type inference for one cell of a table: total, with the rules tried in
/// this order: empty, truth value, integer, finite double, text.
pub fn infer(cell: &str) -> (value: Value)
    ensures
        value@ == typed(cell@),
        value.wf(),
{
    match infer_exactly(cell) {
        Some(value) => value,
        None => infer_otherwise(cell, parse_double(cell)),
    }
}

} // verus!
