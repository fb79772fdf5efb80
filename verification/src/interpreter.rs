use crate::arith::{apply, apply_lanes, op_value, Operator, NAN, ZERO};
use crate::lexer::{first_malformed, lex, tokenize, Lexeme, TokenizeFault};
use crate::parser::{parse, parsed, well_formed, Arena, ExprKind, Node, ParseFault};
use vstd::hash_map::StringHashMap;
use vstd::prelude::*;

verus! {

/// The variables of an evaluation: a value for each name that has one.
pub struct Environment {
    values: StringHashMap<u64>,
}

impl View for Environment {
    type V = Map<Seq<char>, u64>;

    closed spec fn view(&self) -> Map<Seq<char>, u64> {
        self.values@
    }
}

impl Environment {
    /// An environment without variables.
    pub fn new() -> (env: Environment)
        ensures
            env@ == Map::<Seq<char>, u64>::empty(),
    {
        Environment { values: StringHashMap::new() }
    }

    /// Gives `name` the value `value`, whether or not it had one.
    pub fn insert(&mut self, name: String, value: u64)
        ensures
            final(self)@ == old(self)@.insert(name@, value),
    {
        self.values.insert(name, value);
    }

    /// The value of `name`, if it has one.
    pub fn get(&self, name: &str) -> (value: Option<u64>)
        ensures
            value == if self@.contains_key(name@) {
                Some(self@[name@])
            } else {
                None
            },
    {
        match self.values.get(name) {
            Some(value) => Some(*value),
            None => None,
        }
    }

    /// Whether `name` has a value.
    pub fn contains_key(&self, name: &str) -> (found: bool)
        ensures
            found == self@.contains_key(name@),
    {
        self.values.contains_key(name)
    }
}

/// The value that a name stands for: its value in `env`, and zero where it
/// has none.
pub open spec fn lookup(env: Map<Seq<char>, u64>, name: Seq<char>) -> u64 {
    if env.contains_key(name) {
        env[name]
    } else {
        ZERO
    }
}

/// The value of the node at `idx` and the environment after its evaluation.
/// A number is itself, a name is looked up, an operator is applied to its
/// left and then its right operand, and an assignment gives its name the value
/// of its right-hand side, which is also its own value. A place without a
/// node is not a number.
pub open spec fn run(nodes: Seq<Node>, idx: int, env: Map<Seq<char>, u64>) -> (
    u64,
    Map<Seq<char>, u64>,
)
    decreases idx,
    when well_formed(nodes)
{
    if idx < 0 || idx >= nodes.len() {
        (NAN, env)
    } else {
        match nodes[idx] {
            Node::Number(bits) => (bits, env),
            Node::Identifier(name) => (lookup(env, name), env),
            Node::Binary { left, op, right } => {
                let (l, after_left) = run(nodes, left, env);
                let (r, after_right) = run(nodes, right, after_left);
                (op_value(op, l, r), after_right)
            },
            Node::Assign { name, value } => {
                let (v, after) = run(nodes, value, env);
                (v, after.insert(name, v))
            },
        }
    }
}

/// Evaluates the node at `idx`. An assignment writes to `variables`.
fn interpret_node(idx: usize, arena: &Arena, variables: &mut Environment) -> (value: u64)
    requires
        arena.wf(),
    ensures
        (value, final(variables)@) == run(arena@, idx as int, old(variables)@),
    decreases idx,
{
    match arena.get(idx) {
        None => NAN,
        Some(expr) => match &expr.kind {
            ExprKind::Number(bits) => *bits,
            ExprKind::Identifier(name) => match variables.get(name.as_str()) {
                Some(value) => value,
                None => ZERO,
            },
            ExprKind::Binary { left, op, right } => {
                let l = interpret_node(*left, arena, variables);
                let r = interpret_node(*right, arena, variables);
                apply(*op, l, r)
            },
            ExprKind::Assign { name, value } => {
                let v = interpret_node(*value, arena, variables);
                variables.insert(name.clone(), v);
                v
            },
        },
    }
}

/// Evaluates the expression whose root is at `root_idx` and returns its
/// value. Where the root is an assignment, `variables` has the new value
/// afterwards.
pub fn interpret(root_idx: usize, arena: &Arena, variables: &mut Environment) -> (value: u64)
    requires
        arena.wf(),
    ensures
        (value, final(variables)@) == run(arena@, root_idx as int, old(variables)@),
{
    interpret_node(root_idx, arena, variables)
}

/// The name of the variable that a batch sweeps over.
pub open spec fn sweep_name() -> Seq<char> {
    seq!['x']
}

/// The value of the node at `idx` where the sweep variable stands for `x`
/// and every other name for its value in `constants`. Nothing is written: an
/// assignment has the value of its right-hand side and no effect.
pub open spec fn pure_value(nodes: Seq<Node>, idx: int, constants: Map<Seq<char>, u64>, x: u64) -> u64
    decreases idx,
    when well_formed(nodes)
{
    if idx < 0 || idx >= nodes.len() {
        NAN
    } else {
        match nodes[idx] {
            Node::Number(bits) => bits,
            Node::Identifier(name) => if name == sweep_name() {
                x
            } else {
                lookup(constants, name)
            },
            Node::Binary { left, op, right } => op_value(
                op,
                pure_value(nodes, left, constants, x),
                pure_value(nodes, right, constants, x),
            ),
            Node::Assign { name, value } => pure_value(nodes, value, constants, x),
        }
    }
}

/// Whether `name` is the sweep variable.
fn is_sweep_name(name: &str) -> (r: bool)
    ensures
        r == (name@ == sweep_name()),
{
    if name.unicode_len() == 1 {
        let first = name.get_char(0);
        assert(first == 'x' ==> name@ =~= sweep_name());
        first == 'x'
    } else {
        false
    }
}

/// Evaluates the node at `idx` in four lanes at once; lane `j` has `x[j]`
/// for the sweep variable.
fn interpret_node_simd(idx: usize, arena: &Arena, variables: &Environment, x: &[u64; 4]) -> (lanes:
    [u64; 4])
    requires
        arena.wf(),
    ensures
        forall|j: int| 0 <= j < 4 ==> #[trigger] lanes[j] == pure_value(arena@, idx as int, variables@, x[j]),
    decreases idx,
{
    match arena.get(idx) {
        None => [NAN, NAN, NAN, NAN],
        Some(expr) => match &expr.kind {
            ExprKind::Number(bits) => [*bits, *bits, *bits, *bits],
            ExprKind::Identifier(name) => {
                if is_sweep_name(name.as_str()) {
                    *x
                } else {
                    let value = match variables.get(name.as_str()) {
                        Some(value) => value,
                        None => ZERO,
                    };
                    [value, value, value, value]
                }
            },
            ExprKind::Binary { left, op, right } => {
                let l = interpret_node_simd(*left, arena, variables, x);
                let r = interpret_node_simd(*right, arena, variables, x);
                apply_lanes(*op, &l, &r)
            },
            ExprKind::Assign { name, value } => interpret_node_simd(*value, arena, variables, x),
        },
    }
}

/// Evaluates the expression at `root_idx` once for each value of `xs`, which
/// the sweep variable takes in turn. The values are worked in groups of four
/// lanes; a last group that is short is filled up with its last value, and
/// what the filled lanes hold is dropped. `variables` is read and not
/// written.
pub fn simd_eval_over_x(root_idx: usize, arena: &Arena, variables: &Environment, xs: &[u64]) -> (out:
    Vec<u64>)
    requires
        arena.wf(),
    ensures
        out@.len() == xs@.len(),
        forall|k: int|
            0 <= k < xs@.len() ==> #[trigger] out@[k] == pure_value(
                arena@,
                root_idx as int,
                variables@,
                xs@[k],
            ),
{
    let n = xs.len();
    let mut out: Vec<u64> = Vec::with_capacity(n);
    let mut i: usize = 0;
    while i < n
        invariant
            arena.wf(),
            n == xs@.len(),
            i <= n,
            out@.len() == i,
            forall|k: int|
                0 <= k < i ==> #[trigger] out@[k] == pure_value(
                    arena@,
                    root_idx as int,
                    variables@,
                    xs@[k],
                ),
        decreases n - i,
    {
        let mut buf: [u64; 4] = [ZERO, ZERO, ZERO, ZERO];
        let mut count: usize = 0;
        while count < 4 && i + count < n
            invariant
                n == xs@.len(),
                i < n,
                count <= 4,
                i + count <= n,
                forall|j: int| 0 <= j < count ==> #[trigger] buf[j] == xs@[i + j],
            decreases 4 - count,
        {
            buf[count] = xs[i + count];
            count += 1;
        }
        if count < 4 {
            let pad = buf[count - 1];
            let mut j: usize = count;
            while j < 4
                invariant
                    count <= j <= 4,
                    forall|k: int| 0 <= k < count ==> #[trigger] buf[k] == xs@[i + k],
                decreases 4 - j,
            {
                buf[j] = pad;
                j += 1;
            }
        }
        let lanes = interpret_node_simd(root_idx, arena, variables, &buf);
        let mut j: usize = 0;
        while j < count
            invariant
                n == xs@.len(),
                j <= count <= 4,
                i + count <= n,
                out@.len() == i + j,
                forall|k: int| 0 <= k < count ==> #[trigger] buf[k] == xs@[i + k],
                forall|k: int|
                    0 <= k < 4 ==> #[trigger] lanes[k] == pure_value(
                        arena@,
                        root_idx as int,
                        variables@,
                        buf[k],
                    ),
                forall|k: int|
                    0 <= k < i + j ==> #[trigger] out@[k] == pure_value(
                        arena@,
                        root_idx as int,
                        variables@,
                        xs@[k],
                    ),
            decreases count - j,
        {
            out.push(lanes[j]);
            j += 1;
        }
        i += count;
    }
    out
}

/// The values of the nodes at `roots`, evaluated one after the other from
/// the first, each in the environment that the one before it left, and the
/// environment after the last.
pub open spec fn run_all(nodes: Seq<Node>, roots: Seq<usize>, env: Map<Seq<char>, u64>) -> (
    Seq<u64>,
    Map<Seq<char>, u64>,
)
    decreases roots.len(),
{
    if roots.len() == 0 {
        (Seq::empty(), env)
    } else {
        let (values, before_last) = run_all(nodes, roots.drop_last(), env);
        let (value, after) = run(nodes, roots.last() as int, before_last);
        (values.push(value), after)
    }
}

/// Evaluates several expressions of one arena in turn, in one environment.
pub fn batch_interpret(root_indices: &[usize], arena: &Arena, variables: &mut Environment) -> (out:
    Vec<u64>)
    requires
        arena.wf(),
    ensures
        (out@, final(variables)@) == run_all(arena@, root_indices@, old(variables)@),
{
    let mut out: Vec<u64> = Vec::with_capacity(root_indices.len());
    let mut i: usize = 0;
    assert(root_indices@.take(0) =~= Seq::<usize>::empty());
    while i < root_indices.len()
        invariant
            arena.wf(),
            i <= root_indices.len(),
            (out@, variables@) == run_all(arena@, root_indices@.take(i as int), old(variables)@),
        decreases root_indices.len() - i,
    {
        assert(root_indices@.take(i + 1).drop_last() =~= root_indices@.take(i as int));
        let value = interpret_node(root_indices[i], arena, variables);
        out.push(value);
        i += 1;
    }
    assert(root_indices@.take(i as int) =~= root_indices@);
    out
}

/// The value of the node at `idx` where it can be had without an
/// environment: the node is a number, or an operator on two numbers.
pub open spec fn folded(nodes: Seq<Node>, idx: int) -> Option<u64> {
    if idx < 0 || idx >= nodes.len() {
        None
    } else {
        match nodes[idx] {
            Node::Number(bits) => Some(bits),
            Node::Binary { left, op, right } => if 0 <= left < nodes.len() && 0 <= right
                < nodes.len() {
                match (nodes[left], nodes[right]) {
                    (Node::Number(a), Node::Number(b)) => Some(op_value(op, a, b)),
                    _ => None,
                }
            } else {
                None
            },
            _ => None,
        }
    }
}

/// Folds the expression at `root_idx` to its value where that takes no
/// environment, and declines otherwise.
pub fn jit_eval(root_idx: usize, arena: &Arena) -> (value: Option<u64>)
    ensures
        value == folded(arena@, root_idx as int),
{
    let expr = match arena.get(root_idx) {
        Some(expr) => expr,
        None => {
            return None;
        },
    };
    match &expr.kind {
        ExprKind::Number(bits) => Some(*bits),
        ExprKind::Binary { left, op, right } => {
            let l = match arena.get(*left) {
                Some(expr) => expr,
                None => {
                    return None;
                },
            };
            let r = match arena.get(*right) {
                Some(expr) => expr,
                None => {
                    return None;
                },
            };
            match (&l.kind, &r.kind) {
                (ExprKind::Number(a), ExprKind::Number(b)) => Some(apply(*op, *a, *b)),
                _ => None,
            }
        },
        _ => None,
    }
}

/// The accelerated path generates no code in this library: it declines every
/// expression, and the caller evaluates with `interpret`.
pub fn try_jit(root_idx: usize, arena: &Arena) -> (value: Option<u64>)
    ensures
        value is None,
{
    None
}

/// Why a text has no value.
#[derive(Debug, PartialEq, Eq, Clone, Copy, Structural)]
pub enum EvalFault {
    Tokenize(TokenizeFault),
    Parse(ParseFault),
}

impl EvalFault {
    /// The fault in words.
    pub fn message(&self) -> (text: String)
        ensures
            text@ == match self {
                EvalFault::Tokenize(_) => "Invalid number"@,
                EvalFault::Parse(fault) => fault.words(),
            },
    {
        match self {
            EvalFault::Tokenize(fault) => fault.message(),
            EvalFault::Parse(fault) => fault.message(),
        }
    }
}

/// What evaluating the tokens `ts` in `env` gives: the value of the root and
/// the environment afterwards, or the fault of the parser.
pub open spec fn evaluated(ts: Seq<Lexeme>, env: Map<Seq<char>, u64>) -> Result<
    (u64, Map<Seq<char>, u64>),
    EvalFault,
> {
    match parsed(ts) {
        Ok((nodes, root)) => Ok(run(nodes, root, env)),
        Err(fault) => Err(EvalFault::Parse(fault)),
    }
}

/// Tokenizes, parses and evaluates `expression` in one call. After a fault
/// `variables` is as it was. The text fails in the tokenizer exactly where a
/// run of digits and points is no literal.
pub fn eval(expression: &str, variables: &mut Environment) -> (result: Result<u64, EvalFault>)
    ensures
        match lex(expression@) {
            Ok(ts) => match evaluated(ts, old(variables)@) {
                Ok((value, after)) => {
                    &&& result == Ok::<u64, EvalFault>(value)
                    &&& final(variables)@ == after
                },
                Err(fault) => {
                    &&& result == Err::<u64, EvalFault>(fault)
                    &&& final(variables)@ == old(variables)@
                },
            },
            Err(fault) => {
                &&& result == Err::<u64, EvalFault>(EvalFault::Tokenize(fault))
                &&& final(variables)@ == old(variables)@
            },
        },
        match first_malformed(expression@, 0) {
            Some(at) => result == Err::<u64, EvalFault>(
                EvalFault::Tokenize(TokenizeFault::MalformedNumber { at: at as usize }),
            ),
            None => !(result matches Err(EvalFault::Tokenize(_))),
        },
{
    let tokens = match tokenize(expression) {
        Ok(tokens) => tokens,
        Err(fault) => {
            return Err(EvalFault::Tokenize(fault));
        },
    };
    let (arena, root) = match parse(tokens) {
        Ok(built) => built,
        Err(fault) => {
            return Err(EvalFault::Parse(fault));
        },
    };
    Ok(interpret(root, &arena, variables))
}

} // verus!
