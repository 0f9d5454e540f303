use vstd::prelude::*;

verus! {

/// What an expression is, as a tree of values.
pub enum ExprView {
    Const(i32),
    Var(Seq<char>),
    Sum(Box<ExprView>, Box<ExprView>),
    Product(Box<ExprView>, Box<ExprView>),
}

pub struct Const {
    value: i32,
}

pub struct Variable {
    name: String,
}

pub struct Sum {
    left: Box<Expression>,
    right: Box<Expression>,
}

pub struct Product {
    left: Box<Expression>,
    right: Box<Expression>,
}

/// An arithmetic expression over integer constants and named variables.
pub enum Expression {
    Const(Const),
    Variable(Variable),
    Sum(Sum),
    Product(Product),
}

/// A walk over expressions written by the user of the library: `accept`
/// hands each node to the method for its kind, and the visitor goes on into
/// the operands of a sum or product as it sees fit.
pub trait Visitor {
    fn visit_const(&mut self, cst: &Const);

    fn visit_var(&mut self, var: &Variable);

    fn visit_sum(&mut self, sum: &Sum);

    fn visit_product(&mut self, product: &Product);
}

impl Expression {
    /// Hands this expression's top node to `visitor`.
    pub fn accept<V: Visitor>(&self, visitor: &mut V) {
        match self {
            Expression::Const(c) => visitor.visit_const(c),
            Expression::Variable(v) => visitor.visit_var(v),
            Expression::Sum(s) => visitor.visit_sum(s),
            Expression::Product(p) => visitor.visit_product(p),
        }
    }

    pub closed spec fn view(&self) -> ExprView
        decreases self,
    {
        match self {
            Expression::Const(c) => ExprView::Const(c.value),
            Expression::Variable(v) => ExprView::Var(v.name@),
            Expression::Sum(s) => ExprView::Sum(Box::new(s.left.view()), Box::new(s.right.view())),
            Expression::Product(p) => ExprView::Product(Box::new(p.left.view()), Box::new(p.right.view())),
        }
    }

    /// A copy of this expression, node for node.
    pub fn copy(&self) -> (r: Expression)
        ensures
            r@ == self@,
        decreases self,
    {
        match self {
            Expression::Const(c) => Expression::Const(Const { value: c.value }),
            Expression::Variable(v) => Expression::Variable(Variable { name: v.name.clone() }),
            Expression::Sum(s) => Expression::Sum(
                Sum { left: Box::new(s.left.copy()), right: Box::new(s.right.copy()) },
            ),
            Expression::Product(p) => Expression::Product(
                Product { left: Box::new(p.left.copy()), right: Box::new(p.right.copy()) },
            ),
        }
    }
}

impl Const {
    pub closed spec fn spec_value(&self) -> i32 {
        self.value
    }

    pub fn new(value: i32) -> (r: Const)
        ensures
            r.spec_value() == value,
    {
        Const { value }
    }

    pub fn value(&self) -> (r: i32)
        ensures
            r == self.spec_value(),
    {
        self.value
    }

    /// This constant as an expression.
    pub fn as_ref(&self) -> (r: Expression)
        ensures
            r@ == ExprView::Const(self.spec_value()),
    {
        Expression::Const(Const { value: self.value })
    }
}

impl Variable {
    pub closed spec fn spec_name(&self) -> Seq<char> {
        self.name@
    }

    pub fn new(name: String) -> (r: Variable)
        ensures
            r.spec_name() == name@,
    {
        Variable { name }
    }

    pub fn name(&self) -> (r: &str)
        ensures
            r@ == self.spec_name(),
    {
        self.name.as_str()
    }

    /// This variable as an expression.
    pub fn as_ref(&self) -> (r: Expression)
        ensures
            r@ == ExprView::Var(self.spec_name()),
    {
        Expression::Variable(Variable { name: self.name.clone() })
    }
}

impl Sum {
    pub closed spec fn operands(&self) -> (ExprView, ExprView) {
        (self.left@, self.right@)
    }

    pub fn new(left: Expression, right: Expression) -> (r: Sum)
        ensures
            r.operands() == (left@, right@),
    {
        Sum { left: Box::new(left), right: Box::new(right) }
    }

    pub fn left(&self) -> (r: &Expression)
        ensures
            r@ == self.operands().0,
    {
        &self.left
    }

    pub fn right(&self) -> (r: &Expression)
        ensures
            r@ == self.operands().1,
    {
        &self.right
    }

    /// This sum as an expression.
    pub fn as_ref(&self) -> (r: Expression)
        ensures
            r@ == ExprView::Sum(Box::new(self.operands().0), Box::new(self.operands().1)),
    {
        Expression::Sum(Sum { left: Box::new(self.left.copy()), right: Box::new(self.right.copy()) })
    }
}

impl Product {
    pub closed spec fn operands(&self) -> (ExprView, ExprView) {
        (self.left@, self.right@)
    }

    pub fn new(left: Expression, right: Expression) -> (r: Product)
        ensures
            r.operands() == (left@, right@),
    {
        Product { left: Box::new(left), right: Box::new(right) }
    }

    pub fn left(&self) -> (r: &Expression)
        ensures
            r@ == self.operands().0,
    {
        &self.left
    }

    pub fn right(&self) -> (r: &Expression)
        ensures
            r@ == self.operands().1,
    {
        &self.right
    }

    /// This product as an expression.
    pub fn as_ref(&self) -> (r: Expression)
        ensures
            r@ == ExprView::Product(Box::new(self.operands().0), Box::new(self.operands().1)),
    {
        Expression::Product(Product { left: Box::new(self.left.copy()), right: Box::new(self.right.copy()) })
    }
}

/// The decimal digit `d`.
pub open spec fn digit_char(d: nat) -> char {
    ((d + 48) as u8) as char
}

/// The decimal digits of `n`, most significant first.
pub open spec fn digits(n: nat) -> Seq<char>
    decreases n,
{
    if n < 10 {
        seq![digit_char(n)]
    } else {
        digits(n / 10).push(digit_char(n % 10))
    }
}

/// `v` written in decimal, with a leading minus sign where it is negative.
pub open spec fn decimal(v: int) -> Seq<char> {
    if v < 0 {
        seq!['-'] + digits((-v) as nat)
    } else {
        digits(v as nat)
    }
}

/// The tokens of an expression in postfix order.
pub open spec fn postfix(e: ExprView) -> Seq<Seq<char>>
    decreases e,
{
    match e {
        ExprView::Const(v) => seq![decimal(v as int)],
        ExprView::Var(n) => seq![n],
        ExprView::Sum(l, r) => postfix(*l) + postfix(*r) + seq![seq!['+']],
        ExprView::Product(l, r) => postfix(*l) + postfix(*r) + seq![seq!['*']],
    }
}

/// Tokens joined by single spaces.
pub open spec fn joined(t: Seq<Seq<char>>) -> Seq<char>
    decreases t.len(),
{
    if t.len() == 0 {
        Seq::empty()
    } else if t.len() == 1 {
        t[0]
    } else {
        joined(t.drop_last()) + seq![' '] + t.last()
    }
}

/// The value bound to `name`: the first binding of it.
pub open spec fn lookup<T>(vals: Seq<(Seq<char>, T)>, name: Seq<char>) -> Option<T>
    decreases vals.len(),
{
    if vals.len() == 0 {
        None
    } else if vals[0].0 == name {
        Some(vals[0].1)
    } else {
        lookup(vals.drop_first(), name)
    }
}

/// The message for a variable that has no value.
pub open spec fn missing(name: Seq<char>) -> Seq<char> {
    "Missing variable "@ + name
}

/// The value of an expression, or the message for the first variable, from
/// the left, that has none.
pub open spec fn eval(e: ExprView, vals: Seq<(Seq<char>, i32)>) -> Result<int, Seq<char>>
    decreases e,
{
    match e {
        ExprView::Const(v) => Ok(v as int),
        ExprView::Var(n) => match lookup(vals, n) {
            Some(x) => Ok(x as int),
            None => Err(missing(n)),
        },
        ExprView::Sum(l, r) => match eval(*l, vals) {
            Err(m) => Err(m),
            Ok(a) => match eval(*r, vals) {
                Err(m) => Err(m),
                Ok(b) => Ok(a + b),
            },
        },
        ExprView::Product(l, r) => match eval(*l, vals) {
            Err(m) => Err(m),
            Ok(a) => match eval(*r, vals) {
                Err(m) => Err(m),
                Ok(b) => Ok(a * b),
            },
        },
    }
}

pub open spec fn in_i32(v: Result<int, Seq<char>>) -> bool {
    match v {
        Ok(x) => i32::MIN <= x <= i32::MAX,
        Err(_) => true,
    }
}

/// Every value met while evaluating stays within `i32`.
pub open spec fn fits(e: ExprView, vals: Seq<(Seq<char>, i32)>) -> bool
    decreases e,
{
    match e {
        ExprView::Const(_) => true,
        ExprView::Var(_) => true,
        ExprView::Sum(l, r) => fits(*l, vals) && fits(*r, vals) && in_i32(eval(e, vals)),
        ExprView::Product(l, r) => fits(*l, vals) && fits(*r, vals) && in_i32(eval(e, vals)),
    }
}

/// The expression with each variable that has a binding replaced by it.
pub open spec fn subst(e: ExprView, vals: Seq<(Seq<char>, ExprView)>) -> ExprView
    decreases e,
{
    match e {
        ExprView::Const(v) => ExprView::Const(v),
        ExprView::Var(n) => match lookup(vals, n) {
            Some(x) => x,
            None => ExprView::Var(n),
        },
        ExprView::Sum(l, r) => ExprView::Sum(Box::new(subst(*l, vals)), Box::new(subst(*r, vals))),
        ExprView::Product(l, r) => ExprView::Product(Box::new(subst(*l, vals)), Box::new(subst(*r, vals))),
    }
}

pub open spec fn strings_view(v: Seq<String>) -> Seq<Seq<char>> {
    v.map_values(|s: String| s@)
}

pub open spec fn values_view(v: Seq<(String, i32)>) -> Seq<(Seq<char>, i32)> {
    v.map_values(|p: (String, i32)| (p.0@, p.1))
}

pub open spec fn bindings_view(v: Seq<(String, Expression)>) -> Seq<(Seq<char>, ExprView)> {
    v.map_values(|p: (String, Expression)| (p.0@, p.1@))
}

/// Relies on std's `String::push`: appends one character.
#[verifier::external_body]
fn push_char(s: &mut String, c: char)
    ensures
        final(s)@ == old(s)@.push(c),
{
    s.push(c)
}

/// Relies on std's `String::push_str`: appends the characters of `t`.
#[verifier::external_body]
fn push_str(s: &mut String, t: &str)
    ensures
        final(s)@ == old(s)@ + t@,
{
    s.push_str(t)
}

fn push_digits(s: &mut String, n: u32)
    ensures
        final(s)@ == old(s)@ + digits(n as nat),
    decreases n,
{
    if n >= 10 {
        push_digits(s, n / 10);
    }
    let d = (n % 10) as u8;
    push_char(s, (d + 48) as char);
    proof {
        assert(final(s)@ =~= old(s)@ + digits(n as nat));
    }
}

fn symbol(c: char) -> (r: String)
    ensures
        r@ == seq![c],
{
    let mut s = String::new();
    push_char(&mut s, c);
    assert(s@ =~= seq![c]);
    s
}

fn decimal_string(v: i32) -> (r: String)
    ensures
        r@ == decimal(v as int),
{
    let mut s = String::new();
    if v < 0 {
        push_char(&mut s, '-');
        let m = (0i64 - v as i64) as u32;
        push_digits(&mut s, m);
        assert(s@ =~= decimal(v as int));
    } else {
        push_digits(&mut s, v as u32);
        assert(s@ =~= decimal(v as int));
    }
    s
}

/// Writes expressions in postfix notation.
pub struct PostfixConvertor {
    result: Vec<String>,
}

impl PostfixConvertor {
    /// The expression's tokens in postfix order, separated by spaces.
    pub fn transform(expression: &Expression) -> (r: String)
        ensures
            r@ == joined(postfix(expression@)),
    {
        let mut visitor = PostfixConvertor::new();
        visitor.visit(expression);
        assert(strings_view(visitor.result@) =~= postfix(expression@));
        visitor.consume()
    }

    fn new() -> (r: PostfixConvertor)
        ensures
            r.result@.len() == 0,
    {
        PostfixConvertor { result: Vec::new() }
    }

    fn visit(&mut self, e: &Expression)
        ensures
            strings_view(final(self).result@) == strings_view(old(self).result@) + postfix(e@),
        decreases e,
    {
        let ghost before = strings_view(self.result@);
        match e {
            Expression::Const(c) => {
                self.result.push(decimal_string(c.value));
                assert(strings_view(self.result@) =~= before + postfix(e@));
            },
            Expression::Variable(v) => {
                self.result.push(v.name.clone());
                assert(strings_view(self.result@) =~= before + postfix(e@));
            },
            Expression::Sum(s) => {
                self.visit(&s.left);
                self.visit(&s.right);
                let ghost mid = strings_view(self.result@);
                self.result.push(symbol('+'));
                assert(strings_view(self.result@) =~= mid.push(seq!['+']));
                assert(e@ == ExprView::Sum(Box::new(s.left@), Box::new(s.right@)));
                assert(strings_view(self.result@) =~= before + postfix(e@));
            },
            Expression::Product(p) => {
                self.visit(&p.left);
                self.visit(&p.right);
                let ghost mid = strings_view(self.result@);
                self.result.push(symbol('*'));
                assert(strings_view(self.result@) =~= mid.push(seq!['*']));
                assert(e@ == ExprView::Product(Box::new(p.left@), Box::new(p.right@)));
                assert(strings_view(self.result@) =~= before + postfix(e@));
            },
        }
    }

    fn consume(self) -> (r: String)
        ensures
            r@ == joined(strings_view(self.result@)),
    {
        let ghost t = strings_view(self.result@);
        let mut out = String::new();
        let mut i: usize = 0;
        while i < self.result.len()
            invariant
                t == strings_view(self.result@),
                i <= t.len(),
                out@ == joined(t.subrange(0, i as int)),
            decreases t.len() - i,
        {
            if i > 0 {
                push_char(&mut out, ' ');
            }
            push_str(&mut out, self.result[i].as_str());
            proof {
                let pre = t.subrange(0, i + 1);
                assert(pre.drop_last() =~= t.subrange(0, i as int));
                if i == 0 {
                    assert(out@ =~= joined(pre));
                } else {
                    assert(out@ =~= joined(pre));
                }
            }
            i = i + 1;
        }
        assert(t.subrange(0, t.len() as int) =~= t);
        out
    }
}

fn lookup_value(vals: &Vec<(String, i32)>, name: &String) -> (r: Option<i32>)
    ensures
        r == lookup(values_view(vals@), name@),
{
    let ghost vv = values_view(vals@);
    assert(vv.subrange(0, vv.len() as int) =~= vv);
    let mut i: usize = 0;
    while i < vals.len()
        invariant
            vv == values_view(vals@),
            i <= vv.len(),
            lookup(vv, name@) == lookup(vv.subrange(i as int, vv.len() as int), name@),
        decreases vv.len() - i,
    {
        let ghost sub = vv.subrange(i as int, vv.len() as int);
        assert(sub.drop_first() =~= vv.subrange(i + 1, vv.len() as int));
        assert(sub[0] == vv[i as int]);
        if vals[i].0 == *name {
            return Some(vals[i].1);
        }
        i = i + 1;
    }
    assert(vv.subrange(i as int, vv.len() as int).len() == 0);
    None
}

fn lookup_binding(vals: &Vec<(String, Expression)>, name: &String) -> (r: Option<Expression>)
    ensures
        match r {
            Some(x) => lookup(bindings_view(vals@), name@) == Some(x@),
            None => lookup(bindings_view(vals@), name@) is None,
        },
{
    let ghost vv = bindings_view(vals@);
    assert(vv.subrange(0, vv.len() as int) =~= vv);
    let mut i: usize = 0;
    while i < vals.len()
        invariant
            vv == bindings_view(vals@),
            i <= vv.len(),
            lookup(vv, name@) == lookup(vv.subrange(i as int, vv.len() as int), name@),
        decreases vv.len() - i,
    {
        let ghost sub = vv.subrange(i as int, vv.len() as int);
        assert(sub.drop_first() =~= vv.subrange(i + 1, vv.len() as int));
        assert(sub[0] == vv[i as int]);
        if vals[i].0 == *name {
            return Some(vals[i].1.copy());
        }
        i = i + 1;
    }
    assert(vv.subrange(i as int, vv.len() as int).len() == 0);
    None
}

fn evaluate(e: &Expression, values: &Vec<(String, i32)>) -> (r: Result<i32, String>)
    requires
        fits(e@, values_view(values@)),
    ensures
        match r {
            Ok(x) => eval(e@, values_view(values@)) == Ok::<int, Seq<char>>(x as int),
            Err(m) => eval(e@, values_view(values@)) == Err::<int, Seq<char>>(m@),
        },
    decreases e,
{
    match e {
        Expression::Const(c) => Ok(c.value),
        Expression::Variable(v) => match lookup_value(values, &v.name) {
            Some(x) => Ok(x),
            None => {
                let mut m = String::new();
                push_str(&mut m, "Missing variable ");
                push_str(&mut m, v.name.as_str());
                assert(m@ =~= missing(v.name@));
                Err(m)
            },
        },
        Expression::Sum(s) => {
            assert(e@ == ExprView::Sum(Box::new(s.left@), Box::new(s.right@)));
            let a = match evaluate(&s.left, values) {
                Ok(a) => a,
                Err(m) => return Err(m),
            };
            let b = match evaluate(&s.right, values) {
                Ok(b) => b,
                Err(m) => return Err(m),
            };
            Ok(a + b)
        },
        Expression::Product(p) => {
            assert(e@ == ExprView::Product(Box::new(p.left@), Box::new(p.right@)));
            let a = match evaluate(&p.left, values) {
                Ok(a) => a,
                Err(m) => return Err(m),
            };
            let b = match evaluate(&p.right, values) {
                Ok(b) => b,
                Err(m) => return Err(m),
            };
            Ok(a * b)
        },
    }
}

/// Works out the value of expressions.
pub struct Evaluate;

impl Evaluate {
    /// The value of `expression` with each variable given its value in
    /// `values` (the first binding of a name counts); the message names the
    /// first variable, from the left, that has none.
    pub fn transform(expression: &Expression, values: &Vec<(String, i32)>) -> (r: Result<i32, String>)
        requires
            fits(expression@, values_view(values@)),
        ensures
            match r {
                Ok(x) => eval(expression@, values_view(values@)) == Ok::<int, Seq<char>>(x as int),
                Err(m) => eval(expression@, values_view(values@)) == Err::<int, Seq<char>>(m@),
            },
    {
        evaluate(expression, values)
    }
}

fn substitute(e: &Expression, values: &Vec<(String, Expression)>) -> (r: Expression)
    ensures
        r@ == subst(e@, bindings_view(values@)),
    decreases e,
{
    match e {
        Expression::Const(c) => Expression::Const(Const { value: c.value }),
        Expression::Variable(v) => match lookup_binding(values, &v.name) {
            Some(x) => x,
            None => Expression::Variable(Variable { name: v.name.clone() }),
        },
        Expression::Sum(s) => {
            let l = substitute(&s.left, values);
            let r = substitute(&s.right, values);
            Expression::Sum(Sum { left: Box::new(l), right: Box::new(r) })
        },
        Expression::Product(p) => {
            let l = substitute(&p.left, values);
            let r = substitute(&p.right, values);
            Expression::Product(Product { left: Box::new(l), right: Box::new(r) })
        },
    }
}

/// Replaces variables by expressions.
pub struct Substitute;

impl Substitute {
    /// `expression` with each variable that `values` binds replaced by its
    /// expression (the first binding of a name counts).
    pub fn transform(expression: &Expression, values: &Vec<(String, Expression)>) -> (r: Expression)
        ensures
            r@ == subst(expression@, bindings_view(values@)),
    {
        substitute(expression, values)
    }
}

} // verus!
