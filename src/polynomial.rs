use vstd::prelude::*;

verus! {

/// One monomial: `coefficient * name^exponent`.
pub struct Term {
    name: String,
    exponent: i32,
    coefficient: i64,
}

impl Term {
    pub closed spec fn view(&self) -> (Seq<char>, i32, i64) {
        (self.name@, self.exponent, self.coefficient)
    }
}

pub open spec fn terms_view(s: Seq<Term>) -> Seq<(Seq<char>, i32, i64)> {
    s.map_values(|t: Term| t@)
}

/// The first term, at `i` or later, in `name` to the power `exponent`; the
/// length of `s` where there is none.
pub open spec fn term_from(s: Seq<(Seq<char>, i32, i64)>, name: Seq<char>, exponent: i32, i: int) -> int
    decreases s.len() - i,
{
    if i < 0 || i >= s.len() {
        s.len() as int
    } else if s[i].0 == name && s[i].1 == exponent {
        i
    } else {
        term_from(s, name, exponent, i + 1)
    }
}

/// The coefficient of `name^exponent`; zero where no term has it.
pub open spec fn coeff(s: Seq<(Seq<char>, i32, i64)>, name: Seq<char>, exponent: i32) -> int {
    let k = term_from(s, name, exponent, 0);
    if k < s.len() {
        s[k].2 as int
    } else {
        0
    }
}

/// The terms after `coefficient * name^exponent` is added to them.
pub open spec fn with_monomial(s: Seq<(Seq<char>, i32, i64)>, name: Seq<char>, exponent: i32, coefficient: i64) -> Seq<
    (Seq<char>, i32, i64),
> {
    let k = term_from(s, name, exponent, 0);
    if k < s.len() {
        s.update(k, (name, exponent, (s[k].2 + coefficient) as i64))
    } else {
        s.push((name, exponent, coefficient))
    }
}

/// The terms whose coefficient is not zero, in order.
pub open spec fn drop_zeros(s: Seq<(Seq<char>, i32, i64)>) -> Seq<(Seq<char>, i32, i64)>
    decreases s.len(),
{
    if s.len() == 0 {
        s
    } else {
        let r = drop_zeros(s.drop_last());
        if s.last().2 != 0 {
            r.push(s.last())
        } else {
            r
        }
    }
}

fn find_term(s: &Vec<Term>, name: &String, exponent: i32) -> (r: usize)
    ensures
        r == term_from(terms_view(s@), name@, exponent, 0),
{
    let ghost v = terms_view(s@);
    let mut i: usize = 0;
    while i < s.len()
        invariant
            v == terms_view(s@),
            i <= s@.len(),
            term_from(v, name@, exponent, 0) == term_from(v, name@, exponent, i as int),
        decreases s@.len() - i,
    {
        if s[i].exponent == exponent && s[i].name == *name {
            return i;
        }
        i = i + 1;
    }
    i
}

fn add_monomial(s: &mut Vec<Term>, coefficient: i64, name: &String, exponent: i32)
    requires
        i64::MIN <= coeff(terms_view(old(s)@), name@, exponent) + coefficient <= i64::MAX,
    ensures
        terms_view(final(s)@) == with_monomial(terms_view(old(s)@), name@, exponent, coefficient),
{
    let k = find_term(s, name, exponent);
    if k < s.len() {
        proof {
            lemma_term_from_found(terms_view(s@), name@, exponent, 0);
        }
        let c = s[k].coefficient;
        s[k].coefficient = c + coefficient;
        assert(terms_view(s@) =~= with_monomial(terms_view(old(s)@), name@, exponent, coefficient));
    } else {
        s.push(Term { name: name.clone(), exponent, coefficient });
        assert(terms_view(s@) =~= with_monomial(terms_view(old(s)@), name@, exponent, coefficient));
    }
}

proof fn lemma_term_from_found(s: Seq<(Seq<char>, i32, i64)>, name: Seq<char>, exponent: i32, i: int)
    requires
        0 <= i,
    ensures
        term_from(s, name, exponent, i) < s.len() ==> s[term_from(s, name, exponent, i)].0 == name
            && s[term_from(s, name, exponent, i)].1 == exponent,
        i <= s.len() ==> i <= term_from(s, name, exponent, i) <= s.len(),
    decreases s.len() - i,
{
    if i < s.len() && !(s[i].0 == name && s[i].1 == exponent) {
        lemma_term_from_found(s, name, exponent, i + 1);
    }
}

/// The terms, in order, with the zero ones left out.
fn without_zeros(s: Vec<Term>) -> (r: Vec<Term>)
    ensures
        terms_view(r@) == drop_zeros(terms_view(s@)),
{
    let mut out: Vec<Term> = Vec::new();
    let mut s = s;
    let ghost all = terms_view(s@);
    let ghost n = s@.len();
    let mut rest: Vec<Term> = Vec::new();
    // Terms are taken from the back, so the kept ones are gathered reversed.
    while s.len() > 0
        invariant
            s@.len() <= n,
            terms_view(s@) == all.subrange(0, s@.len() as int),
            all.len() == n,
            drop_zeros(all) == drop_zeros(terms_view(s@)) + terms_view(rest@).reverse(),
        decreases s@.len(),
    {
        let ghost before = terms_view(s@);
        let t = s.pop().unwrap();
        proof {
            assert(terms_view(s@) =~= before.drop_last());
            assert(before.last() == t@);
            assert(terms_view(s@) =~= all.subrange(0, s@.len() as int));
        }
        if t.coefficient != 0 {
            let ghost old_rest = terms_view(rest@);
            rest.push(t);
            proof {
                assert(terms_view(rest@) =~= old_rest.push(t@));
                assert(terms_view(rest@).reverse() =~= seq![t@] + old_rest.reverse());
                assert(drop_zeros(before) == drop_zeros(terms_view(s@)).push(t@));
                assert(drop_zeros(all) =~= drop_zeros(terms_view(s@)) + terms_view(rest@).reverse());
            }
        }
    }
    proof {
        assert(terms_view(s@) =~= Seq::<(Seq<char>, i32, i64)>::empty());
    }
    let ghost kept = terms_view(rest@);
    while rest.len() > 0
        invariant
            drop_zeros(all) == terms_view(out@) + terms_view(rest@).reverse(),
        decreases rest@.len(),
    {
        let ghost before = terms_view(rest@);
        let ghost before_out = terms_view(out@);
        let t = rest.pop().unwrap();
        out.push(t);
        proof {
            assert(terms_view(rest@) =~= before.drop_last());
            assert(before.last() == t@);
            assert(before.reverse() =~= seq![t@] + terms_view(rest@).reverse());
            assert(terms_view(out@) =~= before_out.push(t@));
            assert(drop_zeros(all) =~= terms_view(out@) + terms_view(rest@).reverse());
        }
    }
    proof {
        assert(terms_view(rest@).reverse() =~= Seq::<(Seq<char>, i32, i64)>::empty());
        assert(drop_zeros(all) =~= terms_view(out@));
    }
    out
}

/// The terms of `s` with every term of `o` added to them, one after the other.
pub open spec fn add_all(s: Seq<(Seq<char>, i32, i64)>, o: Seq<(Seq<char>, i32, i64)>) -> Seq<(Seq<char>, i32, i64)>
    decreases o.len(),
{
    if o.len() == 0 {
        s
    } else {
        with_monomial(add_all(s, o.drop_last()), o.last().0, o.last().1, o.last().2)
    }
}

/// Adding the terms of `o` to `s` one after the other keeps every
/// coefficient within `i64`.
pub open spec fn sums_fit(s: Seq<(Seq<char>, i32, i64)>, o: Seq<(Seq<char>, i32, i64)>) -> bool
    decreases o.len(),
{
    o.len() == 0 || (sums_fit(s, o.drop_last()) && i64::MIN <= coeff(add_all(s, o.drop_last()), o.last().0, o.last().1)
        + o.last().2 <= i64::MAX)
}

proof fn lemma_sums_fit_prefix(s: Seq<(Seq<char>, i32, i64)>, o: Seq<(Seq<char>, i32, i64)>, i: int)
    requires
        sums_fit(s, o),
        0 <= i <= o.len(),
    ensures
        sums_fit(s, o.subrange(0, i)),
    decreases o.len(),
{
    if i == o.len() {
        assert(o.subrange(0, i) =~= o);
    } else {
        assert(o.drop_last().subrange(0, i) =~= o.subrange(0, i));
        lemma_sums_fit_prefix(s, o.drop_last(), i);
    }
}

/// `t` appears among `b` with the same coefficient.
pub open spec fn found_in(t: (Seq<char>, i32, i64), b: Seq<(Seq<char>, i32, i64)>) -> bool {
    let k = term_from(b, t.0, t.1, 0);
    k < b.len() && b[k].2 == t.2
}

/// Every term of `a` appears among `b` with the same coefficient.
pub open spec fn includes(a: Seq<(Seq<char>, i32, i64)>, b: Seq<(Seq<char>, i32, i64)>) -> bool {
    forall|j: int| 0 <= j < a.len() ==> #[trigger] found_in(a[j], b)
}

/// A polynomial in named variables, kept without zero terms.
pub struct Polynomial {
    terms: Vec<Term>,
}

/// Collects monomials before they make a polynomial.
pub struct PolynomialBuilder {
    terms: Vec<Term>,
}

impl Polynomial {
    pub closed spec fn view(&self) -> Seq<(Seq<char>, i32, i64)> {
        terms_view(self.terms@)
    }

    /// The coefficient of `term^exponent`.
    pub fn coefficient(&self, term: &str, exponent: i32) -> (r: i64)
        ensures
            r == coeff(self@, term@, exponent),
    {
        let name = term.to_owned();
        let k = find_term(&self.terms, &name, exponent);
        if k < self.terms.len() {
            self.terms[k].coefficient
        } else {
            0
        }
    }

    /// Whether every term of `self` appears in `other` with the same
    /// coefficient. Terms that only `other` has are not looked at.
    pub fn eq(&self, other: &Polynomial) -> (r: bool)
        ensures
            r == includes(self@, other@),
    {
        let ghost av = self@;
        let ghost bv = other@;
        let mut i: usize = 0;
        while i < self.terms.len()
            invariant
                av == terms_view(self.terms@),
                bv == terms_view(other.terms@),
                i <= av.len(),
                forall|j: int| 0 <= j < i ==> #[trigger] found_in(av[j], bv),
            decreases av.len() - i,
        {
            let k = find_term(&other.terms, &self.terms[i].name, self.terms[i].exponent);
            proof {
                assert(av[i as int].0 == self.terms@[i as int].name@);
                lemma_term_from_found(bv, av[i as int].0, av[i as int].1, 0);
            }
            if k >= other.terms.len() || other.terms[k].coefficient != self.terms[i].coefficient {
                assert(!found_in(av[i as int], bv));
                return false;
            }
            i = i + 1;
        }
        true
    }

    /// The sum of two polynomials: the terms of `other` are added to those of
    /// `self` one by one, and those that cancel out are dropped.
    pub fn add(self, other: Polynomial) -> (r: Polynomial)
        requires
            sums_fit(self@, other@),
        ensures
            r@ == drop_zeros(add_all(self@, other@)),
    {
        let mut terms = self.terms;
        let ghost sv = terms_view(terms@);
        let ghost ov = other@;
        let mut i: usize = 0;
        while i < other.terms.len()
            invariant
                ov == terms_view(other.terms@),
                sums_fit(sv, ov),
                i <= ov.len(),
                terms_view(terms@) == add_all(sv, ov.subrange(0, i as int)),
            decreases ov.len() - i,
        {
            proof {
                lemma_sums_fit_prefix(sv, ov, i + 1);
                let pre = ov.subrange(0, i + 1);
                assert(pre.drop_last() =~= ov.subrange(0, i as int));
                assert(pre.last() == ov[i as int]);
            }
            add_monomial(&mut terms, other.terms[i].coefficient, &other.terms[i].name, other.terms[i].exponent);
            i = i + 1;
        }
        proof {
            assert(ov.subrange(0, ov.len() as int) =~= ov);
        }
        Polynomial { terms: without_zeros(terms) }
    }

    pub fn builder() -> (r: PolynomialBuilder)
        ensures
            r@ == Seq::<(Seq<char>, i32, i64)>::empty(),
    {
        PolynomialBuilder::new()
    }
}

impl PolynomialBuilder {
    pub closed spec fn view(&self) -> Seq<(Seq<char>, i32, i64)> {
        terms_view(self.terms@)
    }

    pub fn new() -> (r: PolynomialBuilder)
        ensures
            r@ == Seq::<(Seq<char>, i32, i64)>::empty(),
    {
        let r = PolynomialBuilder { terms: Vec::new() };
        assert(r@ =~= Seq::<(Seq<char>, i32, i64)>::empty());
        r
    }

    /// Adds `coefficient * term^exponent`; like terms add up.
    pub fn add(self, coefficient: i64, term: &str, exponent: i32) -> (r: Self)
        requires
            i64::MIN <= coeff(self@, term@, exponent) + coefficient <= i64::MAX,
        ensures
            r@ == with_monomial(self@, term@, exponent, coefficient),
    {
        let mut terms = self.terms;
        let name = term.to_owned();
        add_monomial(&mut terms, coefficient, &name, exponent);
        PolynomialBuilder { terms }
    }

    /// The polynomial of the terms collected, those that cancelled out left
    /// out.
    pub fn build(self) -> (r: Polynomial)
        ensures
            r@ == drop_zeros(self@),
    {
        Polynomial { terms: without_zeros(self.terms) }
    }
}

} // verus!
