use crate::arith::{is_nan, is_zero, op_value, Operator, NAN};
use crate::interpreter::{folded, lookup, pure_value, run, sweep_name};
use crate::lexer::Lexeme;
use crate::parser::{
    children_below, expression_at, expression_from, factor_at, is_additive, is_multiplicative, layout,
    lemma_layout_len, operator_of, parsed, sentence, size, term_at, term_from,
    well_formed, Node, Tree,
};
use vstd::prelude::*;

verus! {

/// No assignment stands in the tree.
pub open spec fn assignment_free(tree: Tree) -> bool
    decreases tree,
{
    match tree {
        Tree::Number(_) => true,
        Tree::Identifier(_) => true,
        Tree::Binary(left, _, right) => assignment_free(*left) && assignment_free(*right),
        Tree::Assign(_, _) => false,
    }
}

/// No assignment stands at `idx` or below it.
pub open spec fn plain(nodes: Seq<Node>, idx: int) -> bool
    decreases idx,
    when well_formed(nodes)
{
    if idx < 0 || idx >= nodes.len() {
        true
    } else {
        match nodes[idx] {
            Node::Number(_) => true,
            Node::Identifier(_) => true,
            Node::Binary { left, op, right } => plain(nodes, left) && plain(nodes, right),
            Node::Assign { name, value } => false,
        }
    }
}

/// An assignment stands at `idx` at most, and none below it.
pub open spec fn assigns_at_root_only(nodes: Seq<Node>, idx: int) -> bool {
    ||| plain(nodes, idx)
    ||| 0 <= idx < nodes.len() && (nodes[idx] matches Node::Assign { name, value } && plain(
        nodes,
        value,
    ))
}

/// An expression without assignment has the same value in a batch, at the
/// sweep value `x`, as by itself in the environment that gives the sweep
/// variable the value `x`; and by itself it leaves that environment as it was.
pub proof fn lemma_plain_batch_matches_scalar(
    nodes: Seq<Node>,
    idx: int,
    constants: Map<Seq<char>, u64>,
    x: u64,
)
    requires
        well_formed(nodes),
        plain(nodes, idx),
    ensures
        run(nodes, idx, constants.insert(sweep_name(), x)) == (
            pure_value(nodes, idx, constants, x),
            constants.insert(sweep_name(), x),
        ),
    decreases idx,
{
    if 0 <= idx < nodes.len() {
        match nodes[idx] {
            Node::Binary { left, op, right } => {
                lemma_plain_batch_matches_scalar(nodes, left, constants, x);
                lemma_plain_batch_matches_scalar(nodes, right, constants, x);
            },
            _ => {},
        }
    }
}

/// Batch and scalar evaluation agree: where an assignment stands at the root
/// at most, the value in a batch at the sweep value `x` is the value of the
/// scalar evaluation in the environment that gives the sweep variable the
/// value `x`.
pub proof fn lemma_batch_matches_scalar(
    nodes: Seq<Node>,
    idx: int,
    constants: Map<Seq<char>, u64>,
    x: u64,
)
    requires
        well_formed(nodes),
        assigns_at_root_only(nodes, idx),
    ensures
        pure_value(nodes, idx, constants, x) == run(nodes, idx, constants.insert(sweep_name(), x)).0,
{
    if plain(nodes, idx) {
        lemma_plain_batch_matches_scalar(nodes, idx, constants, x);
    } else {
        match nodes[idx] {
            Node::Assign { name, value } => {
                lemma_plain_batch_matches_scalar(nodes, value, constants, x);
            },
            _ => {},
        }
    }
}

/// Division by a zero of either sign is not a number, whatever is divided.
pub proof fn lemma_division_by_zero(l: u64, r: u64)
    requires
        is_zero(r),
    ensures
        op_value(Operator::Slash, l, r) == NAN,
        is_nan(op_value(Operator::Slash, l, r)),
{
}

/// No operator hands out a pattern for "not a number" other than `NAN`.
pub proof fn lemma_one_pattern_for_no_number(op: Operator, l: u64, r: u64)
    ensures
        is_nan(op_value(op, l, r)) <==> op_value(op, l, r) == NAN,
{
}

/// An assignment returns the value of its right-hand side and leaves it
/// under its name; every other name keeps what the right-hand side left it.
pub proof fn lemma_assignment_persists(nodes: Seq<Node>, idx: int, env: Map<Seq<char>, u64>)
    requires
        well_formed(nodes),
        0 <= idx < nodes.len(),
        nodes[idx] is Assign,
    ensures
        ({
            let (value, after) = run(nodes, idx, env);
            let (inner, before) = run(nodes, nodes[idx]->Assign_value, env);
            &&& value == inner
            &&& after.contains_key(nodes[idx]->Assign_name)
            &&& after[nodes[idx]->Assign_name] == value
            &&& after == before.insert(nodes[idx]->Assign_name, value)
        }),
{
}

/// What `jit_eval` folds is the value of the expression in every
/// environment, and the evaluation writes nothing.
pub proof fn lemma_folded_is_value(nodes: Seq<Node>, idx: int, env: Map<Seq<char>, u64>)
    requires
        well_formed(nodes),
        folded(nodes, idx) is Some,
    ensures
        run(nodes, idx, env) == (folded(nodes, idx)->Some_0, env),
{
    match nodes[idx] {
        Node::Binary { left, op, right } => {
            assert(run(nodes, left, env) == (nodes[left]->Number_0, env));
            assert(run(nodes, right, env) == (nodes[right]->Number_0, env));
        },
        _ => {},
    }
}

/// In the layout of a tree every operand has its place between the base and
/// the node that names it.
pub proof fn lemma_layout_children(tree: Tree, base: int, i: int)
    requires
        0 <= base,
        0 <= i < size(tree),
    ensures
        layout(tree, base).len() == size(tree),
        match layout(tree, base)[i] {
            Node::Number(_) => true,
            Node::Identifier(_) => true,
            Node::Binary { left, op, right } => base <= left < base + i && base <= right < base + i,
            Node::Assign { name, value } => base <= value < base + i,
        },
    decreases tree,
{
    lemma_layout_len(tree, base);
    match tree {
        Tree::Number(_) => {},
        Tree::Identifier(_) => {},
        Tree::Binary(left, _, right) => {
            lemma_layout_len(*left, base);
            lemma_layout_len(*right, base + size(*left));
            if i < size(*left) {
                lemma_layout_children(*left, base, i);
            } else if i < size(*left) + size(*right) {
                lemma_layout_children(*right, base + size(*left), i - size(*left));
            }
        },
        Tree::Assign(_, value) => {
            lemma_layout_len(*value, base);
            if i < size(*value) {
                lemma_layout_children(*value, base, i);
            }
        },
    }
}

/// The layout of a tree from place zero is a well-formed arena.
pub proof fn lemma_layout_well_formed(tree: Tree)
    ensures
        well_formed(layout(tree, 0)),
{
    lemma_layout_len(tree, 0);
    assert forall|i: int| 0 <= i < layout(tree, 0).len() implies children_below(
        #[trigger] layout(tree, 0)[i],
        i,
    ) by {
        lemma_layout_children(tree, 0, i);
    }
}

/// Where the nodes from `base` on are the layout of a tree without
/// assignment, no assignment stands at its root or below.
pub proof fn lemma_layout_plain(nodes: Seq<Node>, tree: Tree, base: int)
    requires
        well_formed(nodes),
        0 <= base,
        base + size(tree) <= nodes.len(),
        nodes.subrange(base, base + size(tree)) == layout(tree, base),
        assignment_free(tree),
    ensures
        plain(nodes, base + size(tree) - 1),
    decreases tree,
{
    lemma_layout_len(tree, base);
    let part = nodes.subrange(base, base + size(tree));
    assert(nodes[base + size(tree) - 1] == part[size(tree) - 1]);
    match tree {
        Tree::Number(_) => {},
        Tree::Identifier(_) => {},
        Tree::Binary(left, _, right) => {
            let l = size(*left) as int;
            let r = size(*right) as int;
            lemma_layout_len(*left, base);
            lemma_layout_len(*right, base + l);
            assert(part.subrange(0, l) =~= layout(*left, base));
            assert(part.subrange(l, l + r) =~= layout(*right, base + l));
            assert(nodes.subrange(base, base + l) =~= part.subrange(0, l));
            assert(nodes.subrange(base + l, base + l + r) =~= part.subrange(l, l + r));
            lemma_layout_plain(nodes, *left, base);
            lemma_layout_plain(nodes, *right, base + l);
        },
        Tree::Assign(_, _) => {},
    }
}

/// A factor of the grammar holds no assignment.
pub proof fn lemma_factor_assignment_free(ts: Seq<Lexeme>, pos: int)
    requires
        0 <= pos,
    ensures
        factor_at(ts, pos) matches Ok((tree, _)) ==> assignment_free(tree),
    decreases ts.len() - pos, 0nat,
{
    if pos < ts.len() && ts[pos] is LParen {
        lemma_expression_assignment_free(ts, pos + 1);
    }
}

/// What follows a term so far adds no assignment to it.
pub proof fn lemma_term_from_assignment_free(ts: Seq<Lexeme>, pos: int, left: Tree)
    requires
        0 <= pos,
        assignment_free(left),
    ensures
        term_from(ts, pos, left) matches Ok((tree, _)) ==> assignment_free(tree),
    decreases ts.len() - pos, 1nat,
{
    if pos < ts.len() && is_multiplicative(ts[pos]) {
        lemma_factor_assignment_free(ts, pos + 1);
        if let Ok((right, next)) = factor_at(ts, pos + 1) {
            if pos < next <= ts.len() {
                lemma_term_from_assignment_free(
                    ts,
                    next,
                    Tree::Binary(Box::new(left), operator_of(ts[pos]), Box::new(right)),
                );
            }
        }
    }
}

/// A term of the grammar holds no assignment.
pub proof fn lemma_term_assignment_free(ts: Seq<Lexeme>, pos: int)
    requires
        0 <= pos,
    ensures
        term_at(ts, pos) matches Ok((tree, _)) ==> assignment_free(tree),
    decreases ts.len() - pos, 2nat,
{
    lemma_factor_assignment_free(ts, pos);
    if let Ok((first, next)) = factor_at(ts, pos) {
        if pos < next <= ts.len() {
            lemma_term_from_assignment_free(ts, next, first);
        }
    }
}

/// What follows an expression so far adds no assignment to it.
pub proof fn lemma_expression_from_assignment_free(ts: Seq<Lexeme>, pos: int, left: Tree)
    requires
        0 <= pos,
        assignment_free(left),
    ensures
        expression_from(ts, pos, left) matches Ok((tree, _)) ==> assignment_free(tree),
    decreases ts.len() - pos, 3nat,
{
    if pos < ts.len() && is_additive(ts[pos]) {
        lemma_term_assignment_free(ts, pos + 1);
        if let Ok((right, next)) = term_at(ts, pos + 1) {
            if pos < next <= ts.len() {
                lemma_expression_from_assignment_free(
                    ts,
                    next,
                    Tree::Binary(Box::new(left), operator_of(ts[pos]), Box::new(right)),
                );
            }
        }
    }
}

/// An expression of the grammar holds no assignment.
pub proof fn lemma_expression_assignment_free(ts: Seq<Lexeme>, pos: int)
    requires
        0 <= pos,
    ensures
        expression_at(ts, pos) matches Ok((tree, _)) ==> assignment_free(tree),
    decreases ts.len() - pos, 4nat,
{
    lemma_term_assignment_free(ts, pos);
    if let Ok((first, next)) = term_at(ts, pos) {
        if pos < next <= ts.len() {
            lemma_expression_from_assignment_free(ts, next, first);
        }
    }
}

/// What parsing builds is a well-formed arena with an assignment at the root
/// at most.
pub proof fn lemma_parsed_shape(ts: Seq<Lexeme>)
    requires
        parsed(ts) is Ok,
    ensures
        well_formed(parsed(ts)->Ok_0.0),
        parsed(ts)->Ok_0.1 == parsed(ts)->Ok_0.0.len() - 1,
        assigns_at_root_only(parsed(ts)->Ok_0.0, parsed(ts)->Ok_0.1),
{
    let tree = sentence(ts)->Ok_0;
    let nodes = layout(tree, 0);
    lemma_layout_well_formed(tree);
    lemma_layout_len(tree, 0);
    match tree {
        Tree::Assign(name, value) => {
            // Only the first form of an assignment makes such a tree.
            lemma_expression_assignment_free(ts, 0);
            lemma_expression_assignment_free(ts, 2);
            lemma_layout_len(*value, 0);
            assert(nodes.subrange(0, size(*value) as int) =~= layout(*value, 0));
            lemma_layout_plain(nodes, *value, 0);
            assert(nodes[size(tree) - 1] == Node::Assign { name, value: size(*value) - 1 });
        },
        _ => {
            lemma_expression_assignment_free(ts, 0);
            assert(assignment_free(tree));
            assert(nodes.subrange(0, size(tree) as int) =~= nodes);
            lemma_layout_plain(nodes, tree, 0);
        },
    }
}

/// For every token sequence that parses, every constant environment and
/// every sweep value, the batch evaluation of the parsed expression at that
/// value is the scalar evaluation in the environment with the sweep variable
/// bound to it.
pub proof fn lemma_parsed_batch_matches_scalar(
    ts: Seq<Lexeme>,
    constants: Map<Seq<char>, u64>,
    x: u64,
)
    requires
        parsed(ts) is Ok,
    ensures
        pure_value(parsed(ts)->Ok_0.0, parsed(ts)->Ok_0.1, constants, x) == run(
            parsed(ts)->Ok_0.0,
            parsed(ts)->Ok_0.1,
            constants.insert(sweep_name(), x),
        ).0,
{
    lemma_parsed_shape(ts);
    lemma_batch_matches_scalar(parsed(ts)->Ok_0.0, parsed(ts)->Ok_0.1, constants, x);
}

/// The value of a tree and the environment after its evaluation, read off
/// the tree itself: operands from the left to the right, an assignment last.
pub open spec fn tree_run(tree: Tree, env: Map<Seq<char>, u64>) -> (u64, Map<Seq<char>, u64>)
    decreases tree,
{
    match tree {
        Tree::Number(bits) => (bits, env),
        Tree::Identifier(name) => (lookup(env, name), env),
        Tree::Binary(left, op, right) => {
            let (l, after_left) = tree_run(*left, env);
            let (r, after_right) = tree_run(*right, after_left);
            (op_value(op, l, r), after_right)
        },
        Tree::Assign(name, value) => {
            let (v, after) = tree_run(*value, env);
            (v, after.insert(name, v))
        },
    }
}

/// Where the nodes from `base` on are the layout of a tree, evaluating the
/// last of them is evaluating the tree.
pub proof fn lemma_run_follows_tree(
    nodes: Seq<Node>,
    tree: Tree,
    base: int,
    env: Map<Seq<char>, u64>,
)
    requires
        well_formed(nodes),
        0 <= base,
        base + size(tree) <= nodes.len(),
        nodes.subrange(base, base + size(tree)) == layout(tree, base),
    ensures
        run(nodes, base + size(tree) - 1, env) == tree_run(tree, env),
    decreases tree,
{
    lemma_layout_len(tree, base);
    let part = nodes.subrange(base, base + size(tree));
    assert(nodes[base + size(tree) - 1] == part[size(tree) - 1]);
    match tree {
        Tree::Number(_) => {},
        Tree::Identifier(_) => {},
        Tree::Binary(left, _, right) => {
            let l = size(*left) as int;
            let r = size(*right) as int;
            lemma_layout_len(*left, base);
            lemma_layout_len(*right, base + l);
            assert(part.subrange(0, l) =~= layout(*left, base));
            assert(part.subrange(l, l + r) =~= layout(*right, base + l));
            assert(nodes.subrange(base, base + l) =~= part.subrange(0, l));
            assert(nodes.subrange(base + l, base + l + r) =~= part.subrange(l, l + r));
            lemma_run_follows_tree(nodes, *left, base, env);
            lemma_run_follows_tree(nodes, *right, base + l, tree_run(*left, env).1);
        },
        Tree::Assign(_, value) => {
            let v = size(*value) as int;
            lemma_layout_len(*value, base);
            assert(part.subrange(0, v) =~= layout(*value, base));
            assert(nodes.subrange(base, base + v) =~= part.subrange(0, v));
            lemma_run_follows_tree(nodes, *value, base, env);
        },
    }
}

/// Evaluating what parsing built is evaluating the tree that the grammar
/// gives the tokens.
pub proof fn lemma_parsed_run_follows_grammar(ts: Seq<Lexeme>, env: Map<Seq<char>, u64>)
    requires
        parsed(ts) is Ok,
    ensures
        run(parsed(ts)->Ok_0.0, parsed(ts)->Ok_0.1, env) == tree_run(
            sentence(ts)->Ok_0,
            env,
        ),
{
    let tree = sentence(ts)->Ok_0;
    let nodes = layout(tree, 0);
    lemma_layout_well_formed(tree);
    lemma_layout_len(tree, 0);
    assert(nodes.subrange(0, size(tree) as int) =~= nodes);
    lemma_run_follows_tree(nodes, tree, 0, env);
}

} // verus!
