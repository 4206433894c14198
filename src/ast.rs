use vstd::prelude::*;

verus! {

/// A literal value as written in the source. A float keeps its numeral text.
#[derive(Debug, Clone, PartialEq)]
pub enum Literal {
    Nil,
    Bool(bool),
    Integer(i64),
    Float(String),
    Str(String),
}

/// The builtin operators: `Not` and `Negate` are unary, the rest binary.
#[derive(Debug, Clone, Copy, PartialEq, Eq, Structural)]
pub enum Operator {
    Not,
    Negate,
    Equal,
    NotEqual,
    Greater,
    GreaterEqual,
    Less,
    LessEqual,
    Add,
    Subtract,
    Multiply,
    Divide,
}

/// An operator applied to one or two operands.
#[derive(Debug, PartialEq)]
pub enum Operation {
    Unary { operator: Operator, operand: Box<Ast> },
    Binary { operator: Operator, left: Box<Ast>, right: Box<Ast> },
}

/// The abstract syntax tree of the language.
#[derive(Debug, PartialEq)]
pub enum Ast {
    Literal(Literal),
    /// Binds `name` in the innermost scope.
    Declaration { name: String, value: Box<Ast> },
    Reference(String),
    /// A block: its children run in a fresh scope, the last one giving the value.
    Grouping(Vec<Ast>),
    Operation(Operation),
    Function { arguments: Vec<String>, body: Box<Ast> },
    FunctionApplication { function: Box<Ast>, arguments: Vec<Ast> },
}

/// The mathematical content of a [`Literal`].
pub enum LiteralModel {
    Nil,
    Bool(bool),
    Integer(i64),
    Float(Seq<char>),
    Str(Seq<char>),
}

/// The mathematical content of an [`Ast`]: names as character sequences,
/// children as sequences.
pub enum AstModel {
    Literal(LiteralModel),
    Declaration(Seq<char>, Box<AstModel>),
    Reference(Seq<char>),
    Grouping(Seq<AstModel>),
    Unary(Operator, Box<AstModel>),
    Binary(Operator, Box<AstModel>, Box<AstModel>),
    Function(Seq<Seq<char>>, Box<AstModel>),
    Application(Box<AstModel>, Seq<AstModel>),
}

pub open spec fn names_model(v: Seq<String>) -> Seq<Seq<char>> {
    Seq::new(v.len(), |i: int| v[i]@)
}

impl Literal {
    pub open spec fn model(self) -> LiteralModel {
        match self {
            Literal::Nil => LiteralModel::Nil,
            Literal::Bool(b) => LiteralModel::Bool(b),
            Literal::Integer(n) => LiteralModel::Integer(n),
            Literal::Float(s) => LiteralModel::Float(s@),
            Literal::Str(s) => LiteralModel::Str(s@),
        }
    }

    /// Whether two literals have the same content.
    pub fn same(&self, other: &Literal) -> (r: bool)
        ensures
            r == (self.model() == other.model()),
    {
        match (self, other) {
            (Literal::Nil, Literal::Nil) => true,
            (Literal::Bool(a), Literal::Bool(b)) => *a == *b,
            (Literal::Integer(a), Literal::Integer(b)) => *a == *b,
            (Literal::Float(a), Literal::Float(b)) => *a == *b,
            (Literal::Str(a), Literal::Str(b)) => *a == *b,
            _ => false,
        }
    }

    pub fn copy(&self) -> (r: Literal)
        ensures
            r.model() == self.model(),
    {
        match self {
            Literal::Nil => Literal::Nil,
            Literal::Bool(b) => Literal::Bool(*b),
            Literal::Integer(n) => Literal::Integer(*n),
            Literal::Float(s) => Literal::Float(s.clone()),
            Literal::Str(s) => Literal::Str(s.clone()),
        }
    }
}

impl Operation {
    pub fn unary(operator: Operator, operand: Ast) -> (r: Self)
        ensures
            r == (Operation::Unary { operator, operand: Box::new(operand) }),
    {
        Operation::Unary { operator, operand: Box::new(operand) }
    }

    pub fn binary(operator: Operator, operands: (Ast, Ast)) -> (r: Self)
        ensures
            r == (Operation::Binary {
                operator,
                left: Box::new(operands.0),
                right: Box::new(operands.1),
            }),
    {
        let (left, right) = operands;
        Operation::Binary { operator, left: Box::new(left), right: Box::new(right) }
    }
}

impl Ast {
    pub open spec fn model(self) -> AstModel
        decreases self,
    {
        match self {
            Ast::Literal(l) => AstModel::Literal(l.model()),
            Ast::Declaration { name, value } => AstModel::Declaration(
                name@,
                Box::new((*value).model()),
            ),
            Ast::Reference(name) => AstModel::Reference(name@),
            Ast::Grouping(children) => AstModel::Grouping(Self::models(children@)),
            Ast::Operation(Operation::Unary { operator, operand }) => AstModel::Unary(
                operator,
                Box::new((*operand).model()),
            ),
            Ast::Operation(Operation::Binary { operator, left, right }) => AstModel::Binary(
                operator,
                Box::new((*left).model()),
                Box::new((*right).model()),
            ),
            Ast::Function { arguments, body } => AstModel::Function(
                names_model(arguments@),
                Box::new((*body).model()),
            ),
            Ast::FunctionApplication { function, arguments } => AstModel::Application(
                Box::new((*function).model()),
                Self::models(arguments@),
            ),
        }
    }

    pub open spec fn models(s: Seq<Ast>) -> Seq<AstModel>
        decreases s,
    {
        if s.len() == 0 {
            Seq::empty()
        } else {
            Self::models(s.drop_last()).push(s.last().model())
        }
    }

    pub proof fn lemma_models(s: Seq<Ast>)
        ensures
            Self::models(s).len() == s.len(),
            forall|k: int| 0 <= k < s.len() ==> #[trigger] Self::models(s)[k] == s[k].model(),
        decreases s.len(),
    {
        if s.len() > 0 {
            Self::lemma_models(s.drop_last());
        }
    }

    pub proof fn lemma_models_push(s: Seq<Ast>, a: Ast)
        ensures
            Self::models(s.push(a)) == Self::models(s).push(a.model()),
    {
        assert(s.push(a).drop_last() =~= s);
    }

    /// Whether two trees have the same content.
    pub fn same(&self, other: &Ast) -> (r: bool)
        ensures
            r == (self.model() == other.model()),
        decreases self,
    {
        match (self, other) {
            (Ast::Literal(a), Ast::Literal(b)) => a.same(b),
            (Ast::Declaration { name: n1, value: v1 }, Ast::Declaration { name: n2, value: v2 }) => {
                *n1 == *n2 && v1.same(v2)
            },
            (Ast::Reference(a), Ast::Reference(b)) => *a == *b,
            (Ast::Grouping(a), Ast::Grouping(b)) => same_all(a, b),
            (
                Ast::Operation(Operation::Unary { operator: o1, operand: x1 }),
                Ast::Operation(Operation::Unary { operator: o2, operand: x2 }),
            ) => *o1 == *o2 && x1.same(x2),
            (
                Ast::Operation(Operation::Binary { operator: o1, left: l1, right: r1 }),
                Ast::Operation(Operation::Binary { operator: o2, left: l2, right: r2 }),
            ) => *o1 == *o2 && l1.same(l2) && r1.same(r2),
            (
                Ast::Function { arguments: a1, body: b1 },
                Ast::Function { arguments: a2, body: b2 },
            ) => same_names(a1, a2) && b1.same(b2),
            (
                Ast::FunctionApplication { function: f1, arguments: a1 },
                Ast::FunctionApplication { function: f2, arguments: a2 },
            ) => f1.same(f2) && same_all(a1, a2),
            _ => false,
        }
    }

    /// A copy with the same content.
    pub fn copy(&self) -> (r: Ast)
        ensures
            r.model() == self.model(),
        decreases self,
    {
        match self {
            Ast::Literal(l) => Ast::Literal(l.copy()),
            Ast::Declaration { name, value } => Ast::Declaration {
                name: name.clone(),
                value: Box::new(value.copy()),
            },
            Ast::Reference(name) => Ast::Reference(name.clone()),
            Ast::Grouping(children) => {
                let c = copy_all(children);
                Ast::Grouping(c)
            },
            Ast::Operation(Operation::Unary { operator, operand }) => Ast::Operation(
                Operation::Unary { operator: *operator, operand: Box::new(operand.copy()) },
            ),
            Ast::Operation(Operation::Binary { operator, left, right }) => Ast::Operation(
                Operation::Binary {
                    operator: *operator,
                    left: Box::new(left.copy()),
                    right: Box::new(right.copy()),
                },
            ),
            Ast::Function { arguments, body } => Ast::Function {
                arguments: copy_names(arguments),
                body: Box::new(body.copy()),
            },
            Ast::FunctionApplication { function, arguments } => {
                let f = function.copy();
                let a = copy_all(arguments);
                Ast::FunctionApplication { function: Box::new(f), arguments: a }
            },
        }
    }
}

/// A copy of each tree of `v`.
pub fn copy_all(v: &Vec<Ast>) -> (r: Vec<Ast>)
    ensures
        Ast::models(r@) == Ast::models(v@),
    decreases v,
{
    let mut out: Vec<Ast> = Vec::new();
    let mut i: usize = 0;
    while i < v.len()
        invariant
            i <= v@.len(),
            out@.len() == i,
            forall|j: int| 0 <= j < i ==> out@[j].model() == v@[j].model(),
        decreases v@.len() - i,
    {
        proof {
            assert(decreases_to!(*v => v@[i as int]));
        }
        let c = v[i].copy();
        out.push(c);
        i = i + 1;
    }
    proof {
        Ast::lemma_models(out@);
        Ast::lemma_models(v@);
        assert(Ast::models(out@) =~= Ast::models(v@));
    }
    out
}

/// Whether two sequences of trees have the same content.
pub fn same_all(a: &Vec<Ast>, b: &Vec<Ast>) -> (r: bool)
    ensures
        r == (Ast::models(a@) == Ast::models(b@)),
    decreases a,
{
    proof {
        Ast::lemma_models(a@);
        Ast::lemma_models(b@);
    }
    if a.len() != b.len() {
        return false;
    }
    let mut i: usize = 0;
    while i < a.len()
        invariant
            a@.len() == b@.len(),
            i <= a@.len(),
            Ast::models(a@).len() == a@.len(),
            Ast::models(b@).len() == b@.len(),
            forall|k: int| 0 <= k < a@.len() ==> #[trigger] Ast::models(a@)[k] == a@[k].model(),
            forall|k: int| 0 <= k < b@.len() ==> #[trigger] Ast::models(b@)[k] == b@[k].model(),
            forall|k: int| 0 <= k < i ==> a@[k].model() == b@[k].model(),
        decreases a@.len() - i,
    {
        proof {
            assert(decreases_to!(*a => a@[i as int]));
        }
        if !a[i].same(&b[i]) {
            assert(Ast::models(a@)[i as int] != Ast::models(b@)[i as int]);
            return false;
        }
        i = i + 1;
    }
    assert(Ast::models(a@) =~= Ast::models(b@));
    true
}

/// Whether two sequences of names are the same.
pub fn same_names(a: &Vec<String>, b: &Vec<String>) -> (r: bool)
    ensures
        r == (names_model(a@) == names_model(b@)),
{
    if a.len() != b.len() {
        assert(names_model(a@).len() != names_model(b@).len());
        return false;
    }
    let mut i: usize = 0;
    while i < a.len()
        invariant
            a@.len() == b@.len(),
            i <= a@.len(),
            forall|k: int| 0 <= k < i ==> a@[k]@ == b@[k]@,
        decreases a@.len() - i,
    {
        if a[i] != b[i] {
            assert(names_model(a@)[i as int] != names_model(b@)[i as int]);
            return false;
        }
        i = i + 1;
    }
    assert(names_model(a@) =~= names_model(b@));
    true
}

/// A copy of each name of `v`.
pub fn copy_names(v: &Vec<String>) -> (r: Vec<String>)
    ensures
        names_model(r@) == names_model(v@),
{
    let mut out: Vec<String> = Vec::new();
    let mut i: usize = 0;
    while i < v.len()
        invariant
            i <= v@.len(),
            out@.len() == i,
            forall|j: int| 0 <= j < i ==> out@[j]@ == v@[j]@,
        decreases v@.len() - i,
    {
        out.push(v[i].clone());
        i = i + 1;
    }
    assert(names_model(out@) =~= names_model(v@));
    out
}

} // verus!
