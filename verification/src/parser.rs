use crate::arith::Operator;
use crate::lexer::{lexemes, same_token, Lexeme, Token};
use vstd::prelude::*;

verus! {

/// One node of an expression. A node names its operands by their places in
/// the arena that holds it.
#[derive(Debug, Clone, PartialEq)]
pub enum ExprKind {
    Number(u64),
    Identifier(String),
    Binary { left: usize, op: Operator, right: usize },
    Assign { name: String, value: usize },
}

#[derive(Debug, PartialEq)]
pub struct Expr {
    pub kind: ExprKind,
}

/// What a node is, with names as their characters and places as integers.
pub enum Node {
    Number(u64),
    Identifier(Seq<char>),
    Binary { left: int, op: Operator, right: int },
    Assign { name: Seq<char>, value: int },
}

impl View for ExprKind {
    type V = Node;

    open spec fn view(&self) -> Node {
        match self {
            ExprKind::Number(bits) => Node::Number(*bits),
            ExprKind::Identifier(name) => Node::Identifier(name@),
            ExprKind::Binary { left, op, right } => Node::Binary {
                left: *left as int,
                op: *op,
                right: *right as int,
            },
            ExprKind::Assign { name, value } => Node::Assign { name: name@, value: *value as int },
        }
    }
}

impl View for Expr {
    type V = Node;

    open spec fn view(&self) -> Node {
        self.kind@
    }
}

/// Every operand of `node` has a place below `limit`.
pub open spec fn children_below(node: Node, limit: int) -> bool {
    match node {
        Node::Number(_) => true,
        Node::Identifier(_) => true,
        Node::Binary { left, op, right } => 0 <= left < limit && 0 <= right < limit,
        Node::Assign { name, value } => 0 <= value < limit,
    }
}

/// No node refers to itself or to a later node: each operand was allocated
/// strictly before the node that names it.
pub open spec fn well_formed(nodes: Seq<Node>) -> bool {
    forall|i: int| 0 <= i < nodes.len() ==> children_below(#[trigger] nodes[i], i)
}

/// An append-only store of nodes. The place of a node is its identity.
pub struct Arena {
    nodes: Vec<Expr>,
}

impl View for Arena {
    type V = Seq<Node>;

    closed spec fn view(&self) -> Seq<Node> {
        self.nodes@.map_values(|e: Expr| e@)
    }
}

impl Arena {
    /// The invariant of the arena.
    pub open spec fn wf(&self) -> bool {
        well_formed(self@)
    }

    /// An arena without nodes.
    pub fn new() -> (arena: Arena)
        ensures
            arena@ == Seq::<Node>::empty(),
            arena.wf(),
    {
        let arena = Arena { nodes: Vec::new() };
        assert(arena@ =~= Seq::<Node>::empty());
        arena
    }

    /// The number of nodes.
    pub fn len(&self) -> (n: usize)
        ensures
            n == self@.len(),
    {
        self.nodes.len()
    }

    /// Appends a node and returns its place. The operands of the node must be
    /// in the arena already.
    pub fn allocate(&mut self, kind: ExprKind) -> (idx: usize)
        requires
            old(self).wf(),
            children_below(kind@, old(self)@.len() as int),
        ensures
            idx == old(self)@.len(),
            final(self)@ == old(self)@.push(kind@),
            final(self).wf(),
    {
        let idx = self.nodes.len();
        self.nodes.push(Expr { kind });
        assert(self@ =~= old(self)@.push(kind@));
        idx
    }

    /// Whether `allocate` takes `kind` now: whether its operands are in the
    /// arena.
    pub fn accepts(&self, kind: &ExprKind) -> (fits: bool)
        ensures
            fits == children_below(kind@, self@.len() as int),
    {
        let n = self.nodes.len();
        match kind {
            ExprKind::Number(_) => true,
            ExprKind::Identifier(_) => true,
            ExprKind::Binary { left, op, right } => *left < n && *right < n,
            ExprKind::Assign { name, value } => *value < n,
        }
    }

    /// The node at `idx`, if there is one.
    pub fn get(&self, idx: usize) -> (found: Option<&Expr>)
        ensures
            match found {
                Some(expr) => idx < self@.len() && expr@ == self@[idx as int],
                None => idx >= self@.len(),
            },
    {
        if idx < self.nodes.len() {
            Some(&self.nodes[idx])
        } else {
            None
        }
    }
}

/// An expression as a tree.
pub enum Tree {
    Number(u64),
    Identifier(Seq<char>),
    Binary(Box<Tree>, Operator, Box<Tree>),
    Assign(Seq<char>, Box<Tree>),
}

/// The number of nodes of a tree.
pub open spec fn size(tree: Tree) -> nat
    decreases tree,
{
    match tree {
        Tree::Number(_) => 1,
        Tree::Identifier(_) => 1,
        Tree::Binary(left, _, right) => size(*left) + size(*right) + 1,
        Tree::Assign(_, value) => size(*value) + 1,
    }
}

/// The nodes of `tree` in the order in which a bottom-up builder allocates
/// them when the first of them gets the place `base`: the left operand, then
/// the right operand, then the node itself. The root comes last.
pub open spec fn layout(tree: Tree, base: int) -> Seq<Node>
    decreases tree,
{
    match tree {
        Tree::Number(bits) => seq![Node::Number(bits)],
        Tree::Identifier(name) => seq![Node::Identifier(name)],
        Tree::Binary(left, op, right) => layout(*left, base) + layout(*right, base + size(*left))
            + seq![
            Node::Binary {
                left: base + size(*left) - 1,
                op,
                right: base + size(*left) + size(*right) - 1,
            },
        ],
        Tree::Assign(name, value) => layout(*value, base) + seq![
            Node::Assign { name, value: base + size(*value) - 1 },
        ],
    }
}

/// Why a token sequence is no expression. A place is an index into the token
/// sequence that was parsed.
#[derive(Debug, PartialEq, Eq, Clone, Copy, Structural)]
pub enum ParseFault {
    /// The tokens end where a number, a name or `(` must follow.
    UnexpectedEndOfInput,
    /// A `(` is open and the token at `at`, if there is one, is not `)`.
    MismatchedParenthesis { at: usize },
    /// The token at `at` cannot open a factor.
    InvalidFactor { at: usize },
    /// An expression ends before the token at `at`.
    TrailingTokens { at: usize },
}

impl ParseFault {
    /// The words for each fault.
    pub open spec fn words(&self) -> Seq<char> {
        match self {
            ParseFault::UnexpectedEndOfInput => "Unexpected end of input"@,
            ParseFault::MismatchedParenthesis { .. } => "Mismatched parentheses"@,
            ParseFault::InvalidFactor { .. } => "Invalid factor"@,
            ParseFault::TrailingTokens { .. } => "Extra tokens after expression"@,
        }
    }

    /// The fault in words.
    pub fn message(&self) -> (text: String)
        ensures
            text@ == self.words(),
    {
        match self {
            ParseFault::UnexpectedEndOfInput => "Unexpected end of input".to_owned(),
            ParseFault::MismatchedParenthesis { .. } => "Mismatched parentheses".to_owned(),
            ParseFault::InvalidFactor { .. } => "Invalid factor".to_owned(),
            ParseFault::TrailingTokens { .. } => "Extra tokens after expression".to_owned(),
        }
    }
}

/// `+` or `-`.
pub open spec fn is_additive(t: Lexeme) -> bool {
    t is Plus || t is Minus
}

/// `*` or `/`.
pub open spec fn is_multiplicative(t: Lexeme) -> bool {
    t is Star || t is Slash
}

/// The operator that an operator token stands for.
pub open spec fn operator_of(t: Lexeme) -> Operator {
    match t {
        Lexeme::Plus => Operator::Plus,
        Lexeme::Minus => Operator::Minus,
        Lexeme::Star => Operator::Star,
        _ => Operator::Slash,
    }
}

/// `factor := Number | Identifier | '(' expr ')'`, read at `pos`. The result
/// is the tree and the place behind the factor.
pub open spec fn factor_at(ts: Seq<Lexeme>, pos: int) -> Result<(Tree, int), ParseFault>
    decreases ts.len() - pos, 0nat,
{
    if pos < 0 || pos >= ts.len() {
        Err(ParseFault::UnexpectedEndOfInput)
    } else {
        match ts[pos] {
            Lexeme::Number(bits) => Ok((Tree::Number(bits), pos + 1)),
            Lexeme::Identifier(name) => Ok((Tree::Identifier(name), pos + 1)),
            Lexeme::LParen => match expression_at(ts, pos + 1) {
                Ok((inner, next)) => if next < ts.len() && ts[next] is RParen {
                    Ok((inner, next + 1))
                } else {
                    Err(ParseFault::MismatchedParenthesis { at: next as usize })
                },
                Err(fault) => Err(fault),
            },
            _ => Err(ParseFault::InvalidFactor { at: pos as usize }),
        }
    }
}

/// The rest of a term whose factors so far make `left`: as long as `*` or
/// `/` follows, the next factor joins `left` from the right.
pub open spec fn term_from(ts: Seq<Lexeme>, pos: int, left: Tree) -> Result<(Tree, int), ParseFault>
    decreases ts.len() - pos, 1nat,
{
    if 0 <= pos < ts.len() && is_multiplicative(ts[pos]) {
        match factor_at(ts, pos + 1) {
            // A factor holds a token at least and ends within `ts`, so the guard
            // is always met.
            Ok((right, next)) => if pos < next <= ts.len() {
                term_from(ts, next, Tree::Binary(Box::new(left), operator_of(ts[pos]), Box::new(right)))
            } else {
                Ok((left, pos))
            },
            Err(fault) => Err(fault),
        }
    } else {
        Ok((left, pos))
    }
}

/// `term := factor (('*'|'/') factor)*`, read at `pos`, grouped from the left.
pub open spec fn term_at(ts: Seq<Lexeme>, pos: int) -> Result<(Tree, int), ParseFault>
    decreases ts.len() - pos, 2nat,
{
    match factor_at(ts, pos) {
        // As in `term_from`.
        Ok((first, next)) => if pos < next <= ts.len() {
            term_from(ts, next, first)
        } else {
            Ok((first, pos))
        },
        Err(fault) => Err(fault),
    }
}

/// The rest of an expression whose terms so far make `left`: as long as `+`
/// or `-` follows, the next term joins `left` from the right.
pub open spec fn expression_from(ts: Seq<Lexeme>, pos: int, left: Tree) -> Result<
    (Tree, int),
    ParseFault,
>
    decreases ts.len() - pos, 3nat,
{
    if 0 <= pos < ts.len() && is_additive(ts[pos]) {
        match term_at(ts, pos + 1) {
            // As in `term_from`.
            Ok((right, next)) => if pos < next <= ts.len() {
                expression_from(
                    ts,
                    next,
                    Tree::Binary(Box::new(left), operator_of(ts[pos]), Box::new(right)),
                )
            } else {
                Ok((left, pos))
            },
            Err(fault) => Err(fault),
        }
    } else {
        Ok((left, pos))
    }
}

/// `expr := term (('+'|'-') term)*`, read at `pos`, grouped from the left.
pub open spec fn expression_at(ts: Seq<Lexeme>, pos: int) -> Result<(Tree, int), ParseFault>
    decreases ts.len() - pos, 4nat,
{
    match term_at(ts, pos) {
        // As in `term_from`.
        Ok((first, next)) => if pos < next <= ts.len() {
            expression_from(ts, next, first)
        } else {
            Ok((first, pos))
        },
        Err(fault) => Err(fault),
    }
}

/// `assignment := Identifier '=' expr | expr`, read at the start. The first
/// form is taken when the first two tokens are a name and `=`.
pub open spec fn assignment_at(ts: Seq<Lexeme>) -> Result<(Tree, int), ParseFault> {
    if ts.len() >= 2 && ts[0] is Identifier && ts[1] is Equals {
        match expression_at(ts, 2) {
            Ok((value, next)) => Ok((Tree::Assign(ts[0]->Identifier_0, Box::new(value)), next)),
            Err(fault) => Err(fault),
        }
    } else {
        expression_at(ts, 0)
    }
}

/// The tree of a whole token sequence: one assignment or expression, with no
/// token left behind it.
pub open spec fn sentence(ts: Seq<Lexeme>) -> Result<Tree, ParseFault> {
    match assignment_at(ts) {
        Ok((tree, next)) => if next == ts.len() {
            Ok(tree)
        } else {
            Err(ParseFault::TrailingTokens { at: next as usize })
        },
        Err(fault) => Err(fault),
    }
}

/// A tree has as many nodes in its layout as it has nodes.
pub proof fn lemma_layout_len(tree: Tree, base: int)
    ensures
        layout(tree, base).len() == size(tree),
        size(tree) >= 1,
    decreases tree,
{
    match tree {
        Tree::Number(_) => {},
        Tree::Identifier(_) => {},
        Tree::Binary(left, _, right) => {
            lemma_layout_len(*left, base);
            lemma_layout_len(*right, base + size(*left));
        },
        Tree::Assign(_, value) => {
            lemma_layout_len(*value, base);
        },
    }
}

/// `after` is `before` with the nodes of `tree` appended bottom-up, and
/// `root` is the place of the tree's root, the last node.
pub open spec fn holds_tree(before: Seq<Node>, after: Seq<Node>, tree: Tree, root: usize) -> bool {
    &&& after == before + layout(tree, before.len() as int)
    &&& root as int == after.len() - 1
}

/// A read position in a token sequence.
pub struct Parser<'a> {
    tokens: &'a Vec<Token>,
    pos: usize,
}

impl<'a> Parser<'a> {
    /// The tokens that are read.
    pub closed spec fn input(&self) -> Seq<Lexeme> {
        lexemes(self.tokens@)
    }

    /// The place of the token that is read next.
    pub closed spec fn position(&self) -> int {
        self.pos as int
    }

    /// The position is within the tokens or just behind them.
    pub open spec fn wf(&self) -> bool {
        0 <= self.position() <= self.input().len()
    }

    /// A parser at the start of `tokens`.
    pub fn new(tokens: &'a Vec<Token>) -> (parser: Parser<'a>)
        ensures
            parser.input() == lexemes(tokens@),
            parser.position() == 0,
            parser.wf(),
    {
        Parser { tokens, pos: 0 }
    }

    /// The next token, which stays where it is.
    pub fn peek(&self) -> (found: Option<&'a Token>)
        requires
            self.wf(),
        ensures
            match found {
                Some(token) => self.position() < self.input().len() && token@ == self.input()[self.position()],
                None => self.position() == self.input().len(),
            },
    {
        if self.pos < self.tokens.len() {
            Some(&self.tokens[self.pos])
        } else {
            None
        }
    }

    /// The next token, which is passed.
    pub fn next(&mut self) -> (found: Option<&'a Token>)
        requires
            old(self).wf(),
        ensures
            final(self).wf(),
            final(self).input() == old(self).input(),
            match found {
                Some(token) => {
                    &&& old(self).position() < old(self).input().len()
                    &&& token@ == old(self).input()[old(self).position()]
                    &&& final(self).position() == old(self).position() + 1
                },
                None => {
                    &&& old(self).position() == old(self).input().len()
                    &&& final(self).position() == old(self).position()
                },
            },
    {
        if self.pos < self.tokens.len() {
            let token = &self.tokens[self.pos];
            self.pos += 1;
            Some(token)
        } else {
            None
        }
    }

    /// The position, to come back to.
    pub fn save_pos(&self) -> (pos: usize)
        ensures
            pos == self.position(),
    {
        self.pos
    }

    /// Goes back to a position that `save_pos` gave.
    pub fn restore_pos(&mut self, pos: usize)
        requires
            pos <= old(self).input().len(),
        ensures
            final(self).input() == old(self).input(),
            final(self).position() == pos,
            final(self).wf(),
    {
        self.pos = pos;
    }

    /// Passes the next token if it is `expected`, and says whether it did.
    pub fn eat(&mut self, expected: &Token) -> (eaten: bool)
        requires
            old(self).wf(),
        ensures
            final(self).wf(),
            final(self).input() == old(self).input(),
            eaten == (old(self).position() < old(self).input().len() && old(self).input()[old(
                self,
            ).position()] == expected@),
            final(self).position() == old(self).position() + if eaten {
                1int
            } else {
                0int
            },
    {
        if let Some(token) = self.peek() {
            if same_token(token, expected) {
                self.next();
                true
            } else {
                false
            }
        } else {
            false
        }
    }
}

/// A factor that the grammar reads holds a token at least and ends within
/// the tokens.
pub proof fn lemma_factor_advances(ts: Seq<Lexeme>, pos: int)
    requires
        0 <= pos,
    ensures
        factor_at(ts, pos) matches Ok((_, next)) ==> pos < next <= ts.len(),
    decreases ts.len() - pos, 0nat,
{
    if pos < ts.len() && ts[pos] is LParen {
        lemma_expression_advances(ts, pos + 1);
    }
}

/// What follows a term so far ends at or behind the place where it starts.
pub proof fn lemma_term_from_advances(ts: Seq<Lexeme>, pos: int, left: Tree)
    requires
        0 <= pos <= ts.len(),
    ensures
        term_from(ts, pos, left) matches Ok((_, next)) ==> pos <= next <= ts.len(),
    decreases ts.len() - pos, 1nat,
{
    if pos < ts.len() && is_multiplicative(ts[pos]) {
        lemma_factor_advances(ts, pos + 1);
        if let Ok((right, next)) = factor_at(ts, pos + 1) {
            lemma_term_from_advances(
                ts,
                next,
                Tree::Binary(Box::new(left), operator_of(ts[pos]), Box::new(right)),
            );
        }
    }
}

/// A term that the grammar reads holds a token at least and ends within the
/// tokens.
pub proof fn lemma_term_advances(ts: Seq<Lexeme>, pos: int)
    requires
        0 <= pos,
    ensures
        term_at(ts, pos) matches Ok((_, next)) ==> pos < next <= ts.len(),
    decreases ts.len() - pos, 2nat,
{
    lemma_factor_advances(ts, pos);
    if let Ok((first, next)) = factor_at(ts, pos) {
        lemma_term_from_advances(ts, next, first);
    }
}

/// What follows an expression so far ends at or behind the place where it
/// starts.
pub proof fn lemma_expression_from_advances(ts: Seq<Lexeme>, pos: int, left: Tree)
    requires
        0 <= pos <= ts.len(),
    ensures
        expression_from(ts, pos, left) matches Ok((_, next)) ==> pos <= next <= ts.len(),
    decreases ts.len() - pos, 3nat,
{
    if pos < ts.len() && is_additive(ts[pos]) {
        lemma_term_advances(ts, pos + 1);
        if let Ok((right, next)) = term_at(ts, pos + 1) {
            lemma_expression_from_advances(
                ts,
                next,
                Tree::Binary(Box::new(left), operator_of(ts[pos]), Box::new(right)),
            );
        }
    }
}

/// An expression that the grammar reads holds a token at least and ends
/// within the tokens.
pub proof fn lemma_expression_advances(ts: Seq<Lexeme>, pos: int)
    requires
        0 <= pos,
    ensures
        expression_at(ts, pos) matches Ok((_, next)) ==> pos < next <= ts.len(),
    decreases ts.len() - pos, 4nat,
{
    lemma_term_advances(ts, pos);
    if let Ok((first, next)) = term_at(ts, pos) {
        lemma_expression_from_advances(ts, next, first);
    }
}

/// What a grammar function owes: `expected` is what the grammar gives at the
/// old position. On success the arena has grown by the tree, the result is
/// the place of its root and the parser stands behind it; on failure the
/// fault is the grammar's.
pub open spec fn delivers(
    expected: Result<(Tree, int), ParseFault>,
    before: Seq<Node>,
    after: Seq<Node>,
    position: int,
    result: Result<usize, ParseFault>,
) -> bool {
    match expected {
        Ok((tree, next)) => {
            &&& result is Ok
            &&& holds_tree(before, after, tree, result->Ok_0)
            &&& position == next
        },
        Err(fault) => result == Err::<usize, ParseFault>(fault),
    }
}

/// Reads one factor: a number, a name, or an expression in parentheses.
pub fn parse_factor(parser: &mut Parser, arena: &mut Arena) -> (result: Result<usize, ParseFault>)
    requires
        old(parser).wf(),
        old(arena).wf(),
    ensures
        final(parser).wf(),
        final(parser).input() == old(parser).input(),
        final(arena).wf(),
        delivers(
            factor_at(old(parser).input(), old(parser).position()),
            old(arena)@,
            final(arena)@,
            final(parser).position(),
            result,
        ),
    decreases old(parser).input().len() - old(parser).position(), 0nat,
{
    let at = parser.save_pos();
    match parser.next() {
        None => Err(ParseFault::UnexpectedEndOfInput),
        Some(Token::Number(bits)) => {
            let idx = arena.allocate(ExprKind::Number(*bits));
            assert(arena@ =~= old(arena)@ + layout(Tree::Number(*bits), old(arena)@.len() as int));
            Ok(idx)
        },
        Some(Token::Identifier(name)) => {
            let idx = arena.allocate(ExprKind::Identifier(name.clone()));
            assert(arena@ =~= old(arena)@ + layout(Tree::Identifier(name@), old(arena)@.len() as int));
            Ok(idx)
        },
        Some(Token::LParen) => {
            match parse_expression(parser, arena) {
                Ok(idx) => {
                    let here = parser.save_pos();
                    if parser.eat(&Token::RParen) {
                        Ok(idx)
                    } else {
                        Err(ParseFault::MismatchedParenthesis { at: here })
                    }
                },
                Err(fault) => Err(fault),
            }
        },
        Some(_) => Err(ParseFault::InvalidFactor { at }),
    }
}

/// Reads one term: factors joined by `*` and `/`, grouped from the left.
pub fn parse_term(parser: &mut Parser, arena: &mut Arena) -> (result: Result<usize, ParseFault>)
    requires
        old(parser).wf(),
        old(arena).wf(),
    ensures
        final(parser).wf(),
        final(parser).input() == old(parser).input(),
        final(arena).wf(),
        delivers(
            term_at(old(parser).input(), old(parser).position()),
            old(arena)@,
            final(arena)@,
            final(parser).position(),
            result,
        ),
    decreases old(parser).input().len() - old(parser).position(), 2nat,
{
    let ghost ts = parser.input();
    let ghost start = parser.position();
    let ghost base = arena@.len() as int;
    let mut left_idx = match parse_factor(parser, arena) {
        Ok(idx) => idx,
        Err(fault) => {
            return Err(fault);
        },
    };
    let ghost mut left: Tree = factor_at(ts, start)->Ok_0.0;
    proof {
        lemma_factor_advances(ts, start);
    }
    loop
        invariant
            parser.wf(),
            parser.input() == ts,
            arena.wf(),
            start < parser.position(),
            base == old(arena)@.len(),
            holds_tree(old(arena)@, arena@, left, left_idx),
            term_at(ts, start) == term_from(ts, parser.position(), left),
            ts == old(parser).input(),
            start == old(parser).position(),
        decreases ts.len() - parser.position(),
    {
        let op = match parser.peek() {
            Some(Token::Star) => Operator::Star,
            Some(Token::Slash) => Operator::Slash,
            _ => {
                return Ok(left_idx);
            },
        };
        let ghost at = parser.position();
        parser.next();
        let right_idx = match parse_factor(parser, arena) {
            Ok(idx) => idx,
            Err(fault) => {
                return Err(fault);
            },
        };
        let ghost right: Tree = factor_at(ts, at + 1)->Ok_0.0;
        proof {
            lemma_factor_advances(ts, at + 1);
            lemma_layout_len(left, base);
            lemma_layout_len(right, base + size(left));
        }
        let idx = arena.allocate(ExprKind::Binary { left: left_idx, op, right: right_idx });
        proof {
            let joined = Tree::Binary(Box::new(left), op, Box::new(right));
            assert(arena@ =~= old(arena)@ + layout(joined, base));
            left = joined;
        }
        left_idx = idx;
    }
}

/// Reads one expression: terms joined by `+` and `-`, grouped from the left.
pub fn parse_expression(parser: &mut Parser, arena: &mut Arena) -> (result: Result<
    usize,
    ParseFault,
>)
    requires
        old(parser).wf(),
        old(arena).wf(),
    ensures
        final(parser).wf(),
        final(parser).input() == old(parser).input(),
        final(arena).wf(),
        delivers(
            expression_at(old(parser).input(), old(parser).position()),
            old(arena)@,
            final(arena)@,
            final(parser).position(),
            result,
        ),
    decreases old(parser).input().len() - old(parser).position(), 4nat,
{
    let ghost ts = parser.input();
    let ghost start = parser.position();
    let ghost base = arena@.len() as int;
    let mut left_idx = match parse_term(parser, arena) {
        Ok(idx) => idx,
        Err(fault) => {
            return Err(fault);
        },
    };
    let ghost mut left: Tree = term_at(ts, start)->Ok_0.0;
    proof {
        lemma_term_advances(ts, start);
    }
    loop
        invariant
            parser.wf(),
            parser.input() == ts,
            arena.wf(),
            start < parser.position(),
            base == old(arena)@.len(),
            holds_tree(old(arena)@, arena@, left, left_idx),
            expression_at(ts, start) == expression_from(ts, parser.position(), left),
            ts == old(parser).input(),
            start == old(parser).position(),
        decreases ts.len() - parser.position(),
    {
        let op = match parser.peek() {
            Some(Token::Plus) => Operator::Plus,
            Some(Token::Minus) => Operator::Minus,
            _ => {
                return Ok(left_idx);
            },
        };
        let ghost at = parser.position();
        parser.next();
        let right_idx = match parse_term(parser, arena) {
            Ok(idx) => idx,
            Err(fault) => {
                return Err(fault);
            },
        };
        let ghost right: Tree = term_at(ts, at + 1)->Ok_0.0;
        proof {
            lemma_term_advances(ts, at + 1);
            lemma_layout_len(left, base);
            lemma_layout_len(right, base + size(left));
        }
        let idx = arena.allocate(ExprKind::Binary { left: left_idx, op, right: right_idx });
        proof {
            let joined = Tree::Binary(Box::new(left), op, Box::new(right));
            assert(arena@ =~= old(arena)@ + layout(joined, base));
            left = joined;
        }
        left_idx = idx;
    }
}

/// Reads one assignment or expression from the start of the tokens. It looks
/// for a name and then for `=`; where the second is missing it goes back
/// before the name and reads an expression.
pub fn parse_assignment(parser: &mut Parser, arena: &mut Arena) -> (result: Result<
    usize,
    ParseFault,
>)
    requires
        old(parser).wf(),
        old(parser).position() == 0,
        old(arena).wf(),
    ensures
        final(parser).wf(),
        final(parser).input() == old(parser).input(),
        final(arena).wf(),
        delivers(
            assignment_at(old(parser).input()),
            old(arena)@,
            final(arena)@,
            final(parser).position(),
            result,
        ),
{
    let ghost ts = parser.input();
    let saved_pos = parser.save_pos();
    if let Some(Token::Identifier(name)) = parser.peek() {
        parser.next();
        if parser.eat(&Token::Equals) {
            let value = match parse_expression(parser, arena) {
                Ok(idx) => idx,
                Err(fault) => {
                    return Err(fault);
                },
            };
            let ghost tree = expression_at(ts, 2)->Ok_0.0;
            proof {
                lemma_layout_len(tree, old(arena)@.len() as int);
            }
            let idx = arena.allocate(ExprKind::Assign { name: name.clone(), value });
            assert(arena@ =~= old(arena)@ + layout(
                Tree::Assign(name@, Box::new(tree)),
                old(arena)@.len() as int,
            ));
            return Ok(idx);
        }
        parser.restore_pos(saved_pos);
    }
    parse_expression(parser, arena)
}

/// What parsing makes of a token sequence: the nodes of the tree of the
/// sequence, laid out bottom-up from place zero, and the place of the root,
/// which is the last; or the fault that the grammar finds.
pub open spec fn parsed(ts: Seq<Lexeme>) -> Result<(Seq<Node>, int), ParseFault> {
    match sentence(ts) {
        Ok(tree) => Ok((layout(tree, 0), size(tree) - 1)),
        Err(fault) => Err(fault),
    }
}

/// Builds the arena of a token sequence and returns it with the place of the
/// root. A token for an unknown character is a token like any other, and
/// the grammar has no place for it. After a fault no arena is handed out.
pub fn parse(tokens: Vec<Token>) -> (result: Result<(Arena, usize), ParseFault>)
    ensures
        match result {
            Ok((arena, root)) => arena.wf() && parsed(lexemes(tokens@)) == Ok::<
                (Seq<Node>, int),
                ParseFault,
            >((arena@, root as int)),
            Err(fault) => parsed(lexemes(tokens@)) == Err::<(Seq<Node>, int), ParseFault>(fault),
        },
{
    let mut arena = Arena::new();
    let mut parser = Parser::new(&tokens);
    let root = match parse_assignment(&mut parser, &mut arena) {
        Ok(idx) => idx,
        Err(fault) => {
            return Err(fault);
        },
    };
    let at = parser.save_pos();
    if at != tokens.len() {
        return Err(ParseFault::TrailingTokens { at });
    }
    proof {
        let tree = sentence(lexemes(tokens@))->Ok_0;
        lemma_layout_len(tree, 0);
        assert(arena@ =~= layout(tree, 0));
    }
    Ok((arena, root))
}

/// Parsing is a function of the tokens alone: token sequences that read the
/// same give the same nodes at the same places and the same root, or fail
/// with the same fault.
pub proof fn lemma_reparse_is_identical(first: Seq<Token>, second: Seq<Token>)
    requires
        lexemes(first) == lexemes(second),
    ensures
        parsed(lexemes(first)) == parsed(lexemes(second)),
{
}

} // verus!
