use public_transport::expressions::{
    Const, Evaluate, Expression, PostfixConvertor, Product, Substitute, Sum, Variable,
};

fn sample() -> Expression {
    let x = Variable::new("x".to_string());
    let prod = Product::new(x.as_ref(), Const::new(-2).as_ref());
    Sum::new(Const::new(1).as_ref(), prod.as_ref()).as_ref()
}

#[test]
fn postfix_form() {
    assert_eq!(PostfixConvertor::transform(&sample()), "1 x -2 * +");
    assert_eq!(PostfixConvertor::transform(&Const::new(-2147483648).as_ref()), "-2147483648");
    assert_eq!(PostfixConvertor::transform(&Const::new(1230).as_ref()), "1230");
}

#[test]
fn accessors() {
    let c = Const::new(7);
    assert_eq!(c.value(), 7);
    let v = Variable::new("abc".to_string());
    assert_eq!(v.name(), "abc");
    let s = Sum::new(c.as_ref(), v.as_ref());
    assert_eq!(PostfixConvertor::transform(s.left()), "7");
    assert_eq!(PostfixConvertor::transform(s.right()), "abc");
    let p = Product::new(v.as_ref(), c.as_ref());
    assert_eq!(PostfixConvertor::transform(p.left()), "abc");
    assert_eq!(PostfixConvertor::transform(p.right()), "7");
}

#[test]
fn evaluation() {
    let values = vec![("x".to_string(), 3), ("x".to_string(), 100)];
    assert_eq!(Evaluate::transform(&sample(), &values), Ok(-5));
    let none: Vec<(String, i32)> = vec![];
    assert_eq!(
        Evaluate::transform(&sample(), &none),
        Err("Missing variable x".to_string())
    );
    let both = Sum::new(Variable::new("a".to_string()).as_ref(), Variable::new("b".to_string()).as_ref()).as_ref();
    assert_eq!(
        Evaluate::transform(&both, &none),
        Err("Missing variable a".to_string())
    );
}

#[test]
fn substitution() {
    let repl = Sum::new(Const::new(2).as_ref(), Const::new(3).as_ref()).as_ref();
    let values = vec![("x".to_string(), repl)];
    let out = Substitute::transform(&sample(), &values);
    assert_eq!(PostfixConvertor::transform(&out), "1 2 3 + -2 * +");
    let untouched = Substitute::transform(&Variable::new("y".to_string()).as_ref(), &values);
    assert_eq!(PostfixConvertor::transform(&untouched), "y");
}

struct Depth {
    deepest: usize,
    now: usize,
}

impl public_transport::expressions::Visitor for Depth {
    fn visit_const(&mut self, _cst: &Const) {
        self.deepest = self.deepest.max(self.now + 1);
    }
    fn visit_var(&mut self, _var: &Variable) {
        self.deepest = self.deepest.max(self.now + 1);
    }
    fn visit_sum(&mut self, sum: &Sum) {
        self.now += 1;
        sum.left().accept(self);
        sum.right().accept(self);
        self.now -= 1;
    }
    fn visit_product(&mut self, product: &Product) {
        self.now += 1;
        product.left().accept(self);
        product.right().accept(self);
        self.now -= 1;
    }
}

#[test]
fn user_visitors_walk_the_tree() {
    let mut d = Depth { deepest: 0, now: 0 };
    sample().accept(&mut d);
    assert_eq!(d.deepest, 3);
}
