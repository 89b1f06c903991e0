//! A minimal in-memory model of types for a type-inference or
//! program-synthesis engine.
//!
//! A type is a finite tree built from three kinds of node: an [`Arrow`]
//! (a function type `arg → ret`, right-associated so that curried
//! multi-argument functions are chains of arrows), a [`Constructed`] type
//! (a named type constructor applied to zero or more arguments), and a
//! [`Variable`] (an unbound placeholder identified by a number).
//!
//! The library offers three structural operations: a polymorphism test
//! (does the tree contain a variable?), decomposition of an arrow chain
//! into its argument types and final return type, and a canonical textual
//! rendering with minimal parenthesization.

use vstd::prelude::*;
use vstd::string::StringExecFns;

verus! {

/// A type: one of the three node kinds, as a closed sum.
#[derive(Debug, PartialEq, Eq)]
pub enum Type {
    Arrow(Arrow),
    Constructed(Constructed),
    Variable(Variable),
}

/// A function type `arg → ret`. `ret` may itself be an `Arrow`,
/// encoding curried multi-argument functions.
#[derive(Debug, PartialEq, Eq)]
pub struct Arrow {
    pub arg: Box<Type>,
    pub ret: Box<Type>,
}

/// A named, possibly parameterized type, such as `Bool` or `List(Int)`.
#[derive(Debug, PartialEq, Eq)]
pub struct Constructed {
    pub name: String,
    pub args: Vec<Type>,
}

/// An unbound type variable, identified by its number.
#[derive(Debug, PartialEq, Eq)]
pub struct Variable {
    pub number: u32,
}

/// True iff the tree of `t` contains at least one `Variable` node:
/// a variable is one itself, an arrow contains one iff its argument or
/// its result does, and a constructed type iff one of its arguments does.
pub open spec fn has_type_variable(t: Type) -> bool
    decreases t,
{
    match t {
        Type::Arrow(a) => has_type_variable(*a.arg) || has_type_variable(*a.ret),
        Type::Constructed(c) => exists|i: int|
            0 <= i < c.args@.len() && has_type_variable(#[trigger] c.args@[i]),
        Type::Variable(_) => true,
    }
}

impl Type {
    /// True iff this type transitively contains a type variable.
    pub fn is_polymorphic(&self) -> (r: bool)
        ensures
            r == has_type_variable(*self),
        decreases *self,
    {
        match self {
            Type::Arrow(a) => a.is_polymorphic(),
            Type::Constructed(c) => c.is_polymorphic(),
            Type::Variable(v) => v.is_polymorphic(),
        }
    }
}

impl Arrow {
    /// An arrow is polymorphic iff its argument or its result is.
    pub fn is_polymorphic(&self) -> (r: bool)
        ensures
            r == has_type_variable(Type::Arrow(*self)),
        decreases *self,
    {
        self.arg.is_polymorphic() || self.ret.is_polymorphic()
    }
}

impl Constructed {
    /// A constructed type is polymorphic iff one of its arguments is.
    pub fn is_polymorphic(&self) -> (r: bool)
        ensures
            r == has_type_variable(Type::Constructed(*self)),
        decreases *self,
    {
        let mut i: usize = 0;
        while i < self.args.len()
            invariant
                i <= self.args@.len(),
                forall|j: int| 0 <= j < i ==> !has_type_variable(#[trigger] self.args@[j]),
            decreases self.args@.len() - i,
        {
            if self.args[i].is_polymorphic() {
                proof {
                    let tt = Type::Constructed(*self);
                    match tt {
                        Type::Constructed(c) => {
                            assert(0 <= i < c.args@.len()
                                && has_type_variable(c.args@[i as int]));
                        },
                        _ => {},
                    }
                    assert(has_type_variable(tt));
                }
                return true;
            }
            i += 1;
        }
        false
    }
}

impl Type {
    /// A view of this type as an `Arrow`, present iff the type is one.
    /// Absence is a normal outcome, not an error.
    pub fn as_arrow(&self) -> (r: Option<&Arrow>)
        ensures
            (r matches Some(a) ==> *self == Type::Arrow(*a)),
            r is Some <==> *self is Arrow,
    {
        match self {
            Type::Arrow(a) => Some(a),
            _ => None,
        }
    }
}

/// The argument types contributed by the right-associated chain of
/// arrows starting at `a`, in left-to-right application order: `a`'s own
/// argument, then, if `a.ret` is itself an arrow, the arguments of that
/// chain. The chain ends at the first result that is not an arrow.
pub open spec fn chain_arg_types(a: Arrow) -> Seq<Type>
    decreases a,
{
    match *a.ret {
        Type::Arrow(inner) => seq![*a.arg] + chain_arg_types(inner),
        _ => seq![*a.arg],
    }
}

/// The final result of the right-associated chain of arrows starting at
/// `a`: the first `ret` along the chain that is not itself an arrow.
pub open spec fn chain_return_type(a: Arrow) -> Type
    decreases a,
{
    match *a.ret {
        Type::Arrow(inner) => chain_return_type(inner),
        _ => *a.ret,
    }
}

impl Arrow {
    /// An arrow is itself the arrow view.
    pub fn as_arrow(&self) -> (r: Option<&Arrow>)
        ensures
            r == Some(self),
    {
        Some(self)
    }

    /// The argument types of the curried chain starting here, in
    /// left-to-right application order: for `A → B → C` this returns
    /// `[A, B]`.
    pub fn arg_types(&self) -> (r: Vec<&Type>)
        ensures
            r@.len() == chain_arg_types(*self).len(),
            forall|i: int| 0 <= i < r@.len() ==> *r@[i] == chain_arg_types(*self)[i],
        decreases *self,
    {
        match self.ret.as_arrow() {
            Some(arrow) => {
                proof {
                    match &*self.ret {
                        Type::Arrow(inner) => {
                            assert(*arrow == *inner);
                            assert(decreases_to!(*self => *inner));
                        },
                        _ => {},
                    }
                }
                let mut tps = arrow.arg_types();
                tps.insert(0, &*self.arg);
                tps
            },
            None => {
                let mut tps: Vec<&Type> = Vec::new();
                tps.push(&*self.arg);
                tps
            },
        }
    }

    /// The final, non-arrow result of the curried chain starting here:
    /// for `A → B → C` this returns `C`.
    pub fn return_type(&self) -> (r: &Type)
        ensures
            *r == chain_return_type(*self),
        decreases *self,
    {
        match self.ret.as_arrow() {
            Some(arrow) => arrow.return_type(),
            None => &*self.ret,
        }
    }
}

impl Constructed {
    /// A constructed type is never an arrow.
    pub fn as_arrow(&self) -> (r: Option<&Arrow>)
        ensures
            r is None,
    {
        None
    }
}

impl Variable {
    /// A variable is never an arrow.
    pub fn as_arrow(&self) -> (r: Option<&Arrow>)
        ensures
            r is None,
    {
        None
    }
}

impl Variable {
    /// A variable is always polymorphic.
    pub fn is_polymorphic(&self) -> (r: bool)
        ensures
            r == has_type_variable(Type::Variable(*self)),
    {
        true
    }
}

/// The decimal digit `d` as a character.
pub open spec fn digit_char(d: nat) -> char {
    if d == 0 {
        '0'
    } else if d == 1 {
        '1'
    } else if d == 2 {
        '2'
    } else if d == 3 {
        '3'
    } else if d == 4 {
        '4'
    } else if d == 5 {
        '5'
    } else if d == 6 {
        '6'
    } else if d == 7 {
        '7'
    } else if d == 8 {
        '8'
    } else {
        '9'
    }
}

/// The decimal rendering of `n`, most significant digit first, with no
/// leading zeros (`0` itself renders as the single digit `0`).
pub open spec fn decimal_digits(n: nat) -> Seq<char>
    decreases n,
{
    if n < 10 {
        seq![digit_char(n)]
    } else {
        decimal_digits(n / 10).push(digit_char(n % 10))
    }
}

/// The canonical rendering of `t`. The `is_return` flag says whether `t`
/// stands in return position (the top level, or the right side of an
/// arrow): an arrow rendered in return position omits its parentheses,
/// one rendered in argument position is wrapped in a single pair.
/// Constructed types and variables render the same way in either
/// position.
pub open spec fn rendered(t: Type, is_return: bool) -> Seq<char>
    decreases t,
{
    match t {
        Type::Arrow(a) => {
            let inner = rendered(*a.arg, false) + " → "@ + rendered(*a.ret, true);
            if is_return {
                inner
            } else {
                "("@ + inner + ")"@
            }
        },
        Type::Constructed(c) => if c.args@.len() == 0 {
            c.name@
        } else {
            c.name@ + "("@ + rendered_args(c.args@) + ")"@
        },
        Type::Variable(v) => "t"@ + decimal_digits(v.number as nat),
    }
}

/// The renderings of the types of `s`, each in return position, joined
/// by commas with no spaces.
pub open spec fn rendered_args(s: Seq<Type>) -> Seq<char>
    decreases s,
{
    if s.len() == 0 {
        Seq::<char>::empty()
    } else if s.len() == 1 {
        rendered(s[0], true)
    } else {
        rendered(s[0], true) + ","@ + rendered_args(s.subrange(1, s.len() as int))
    }
}

/// Extending the argument list by one type appends, after a separating
/// comma when the list was not empty, the new type's rendering.
proof fn lemma_rendered_args_push(s: Seq<Type>, t: Type)
    ensures
        rendered_args(s.push(t)) == if s.len() == 0 {
            rendered(t, true)
        } else {
            rendered_args(s) + ","@ + rendered(t, true)
        },
    decreases s.len(),
{
    if s.len() == 0 {
        assert(s.push(t).len() == 1);
        assert(s.push(t)[0] == t);
    } else {
        let rest = s.subrange(1, s.len() as int);
        assert(s.push(t).subrange(1, s.push(t).len() as int) =~= rest.push(t));
        lemma_rendered_args_push(rest, t);
        if s.len() == 1 {
            assert(rendered_args(s.push(t))
                == rendered(s[0], true) + ","@ + rendered(t, true));
        } else {
            assert(rendered_args(s.push(t))
                == rendered(s[0], true) + ","@
                    + (rendered_args(rest) + ","@ + rendered(t, true)));
            assert(rendered(s[0], true) + ","@
                    + (rendered_args(rest) + ","@ + rendered(t, true))
                =~= (rendered(s[0], true) + ","@ + rendered_args(rest)) + ","@
                    + rendered(t, true));
        }
    }
}

/// The character of the decimal digit `d`.
fn digit_str(d: u32) -> (r: &'static str)
    requires
        d < 10,
    ensures
        r@ == seq![digit_char(d as nat)],
{
    let r: &'static str = if d == 0 {
        "0"
    } else if d == 1 {
        "1"
    } else if d == 2 {
        "2"
    } else if d == 3 {
        "3"
    } else if d == 4 {
        "4"
    } else if d == 5 {
        "5"
    } else if d == 6 {
        "6"
    } else if d == 7 {
        "7"
    } else if d == 8 {
        "8"
    } else {
        "9"
    };
    proof {
        reveal_strlit("0");
        reveal_strlit("1");
        reveal_strlit("2");
        reveal_strlit("3");
        reveal_strlit("4");
        reveal_strlit("5");
        reveal_strlit("6");
        reveal_strlit("7");
        reveal_strlit("8");
        reveal_strlit("9");
        assert(r@ =~= seq![digit_char(d as nat)]);
    }
    r
}

/// Appends the decimal rendering of `n` to `s`.
fn push_decimal(s: &mut String, n: u32)
    ensures
        final(s)@ == old(s)@ + decimal_digits(n as nat),
    decreases n,
{
    if n >= 10 {
        push_decimal(s, n / 10);
    }
    s.append(digit_str(n % 10));
    proof {
        assert(s@ =~= old(s)@ + decimal_digits(n as nat));
    }
}

impl Type {
    /// The canonical textual rendering. Supplying `is_return` helps
    /// arrows look cleaner: pass `true` at the top level, `false` for
    /// the argument side of an arrow. The right side of an arrow and
    /// the arguments of a constructed type are rendered in return
    /// position, so a chain `A → B → C` stays flat while an arrow used
    /// as an arrow's argument is parenthesized.
    pub fn show(&self, is_return: bool) -> (r: String)
        ensures
            r@ == rendered(*self, is_return),
        decreases *self,
    {
        match self {
            Type::Arrow(a) => a.show(is_return),
            Type::Constructed(c) => c.show(is_return),
            Type::Variable(v) => v.show(is_return),
        }
    }
}

impl Arrow {
    /// Renders as `arg → ret`, wrapped in parentheses unless the arrow
    /// stands in return position.
    pub fn show(&self, is_return: bool) -> (r: String)
        ensures
            r@ == rendered(Type::Arrow(*self), is_return),
        decreases *self,
    {
        let mut s = String::new();
        if !is_return {
            s.append("(");
        }
        let left = self.arg.show(false);
        s.append(left.as_str());
        s.append(" → ");
        let right = self.ret.show(true);
        s.append(right.as_str());
        if !is_return {
            s.append(")");
        }
        proof {
            assert(s@ =~= rendered(Type::Arrow(*self), is_return));
        }
        s
    }
}

impl Constructed {
    /// Renders as the bare name when there are no arguments, and as
    /// `Name(a1,a2,...)` otherwise, each argument rendered in return
    /// position and joined by commas with no spaces.
    pub fn show(&self, _is_return: bool) -> (r: String)
        ensures
            r@ == rendered(Type::Constructed(*self), _is_return),
        decreases *self,
    {
        if self.args.len() == 0 {
            return self.name.clone();
        }
        let mut s = self.name.clone();
        s.append("(");
        proof {
            assert(s@ =~= self.name@ + "("@ + rendered_args(self.args@.subrange(0, 0)));
        }
        let mut i: usize = 0;
        while i < self.args.len()
            invariant
                i <= self.args@.len(),
                self.args@.len() > 0,
                s@ == self.name@ + "("@ + rendered_args(self.args@.subrange(0, i as int)),
            decreases self.args@.len() - i,
        {
            if i > 0 {
                s.append(",");
            }
            let part = self.args[i].show(true);
            s.append(part.as_str());
            proof {
                let prefix = self.args@.subrange(0, i as int);
                assert(self.args@.subrange(0, i + 1) =~= prefix.push(self.args@[i as int]));
                lemma_rendered_args_push(prefix, self.args@[i as int]);
                assert(s@ =~= self.name@ + "("@ + rendered_args(self.args@.subrange(0, i + 1)));
            }
            i += 1;
        }
        s.append(")");
        proof {
            assert(self.args@.subrange(0, self.args@.len() as int) =~= self.args@);
            assert(s@ =~= rendered(Type::Constructed(*self), _is_return));
        }
        s
    }
}

/// The right-nested arrow chain `args[0] → args[1] → ... → ret`:
/// `ret` when `args` is empty, and otherwise an arrow taking `args[0]`
/// and returning the chain of the remaining arguments.
pub open spec fn arrow_chain(args: Seq<Type>, ret: Type) -> Type
    decreases args.len(),
{
    if args.len() == 0 {
        ret
    } else {
        Type::Arrow(
            Arrow {
                arg: Box::new(args[0]),
                ret: Box::new(arrow_chain(args.subrange(1, args.len() as int), ret)),
            },
        )
    }
}

/// Decomposing a right-nested chain of arrows recovers what it was
/// built from: for every non-empty `args` and non-arrow `ret`, the
/// chain `args[0] → ... → args[k-1] → ret` is an arrow whose argument
/// types are exactly `args`, in order, and whose return type is `ret`.
pub proof fn lemma_chain_decomposition(args: Seq<Type>, ret: Type)
    requires
        args.len() >= 1,
        !(ret is Arrow),
    ensures
        arrow_chain(args, ret) matches Type::Arrow(a) && chain_arg_types(a) == args
            && chain_return_type(a) == ret,
    decreases args.len(),
{
    let rest = args.subrange(1, args.len() as int);
    if args.len() == 1 {
        match arrow_chain(args, ret) {
            Type::Arrow(a) => {
                assert(*a.ret == ret);
                assert(chain_arg_types(a) =~= args);
            },
            _ => {},
        }
    } else {
        lemma_chain_decomposition(rest, ret);
        match arrow_chain(args, ret) {
            Type::Arrow(a) => {
                match arrow_chain(rest, ret) {
                    Type::Arrow(inner) => {
                        assert(chain_arg_types(a) =~= args);
                    },
                    _ => {},
                }
            },
            _ => {},
        }
    }
}

/// Every arrow is the right-nested chain of its argument types ending
/// in its return type; the chain has at least one argument, and the
/// return type is never itself an arrow.
pub proof fn lemma_chain_reconstruction(a: Arrow)
    ensures
        chain_arg_types(a).len() >= 1,
        !(chain_return_type(a) is Arrow),
        arrow_chain(chain_arg_types(a), chain_return_type(a)) == Type::Arrow(a),
    decreases a,
{
    match *a.ret {
        Type::Arrow(inner) => {
            lemma_chain_reconstruction(inner);
            let args = chain_arg_types(a);
            let ret = chain_return_type(a);
            assert(args == seq![*a.arg] + chain_arg_types(inner));
            assert(args[0] == *a.arg);
            assert(args.subrange(1, args.len() as int) =~= chain_arg_types(inner));
            assert(arrow_chain(args.subrange(1, args.len() as int), ret) == Type::Arrow(inner));
            assert(arrow_chain(args, ret) == Type::Arrow(
                Arrow {
                    arg: Box::new(args[0]),
                    ret: Box::new(arrow_chain(args.subrange(1, args.len() as int), ret)),
                },
            ));
            assert(Box::new(args[0]) == a.arg);
            assert(Box::new(arrow_chain(args.subrange(1, args.len() as int), ret)) == a.ret);
            assert(a == (Arrow { arg: a.arg, ret: a.ret }));
        },
        _ => {
            let args = chain_arg_types(a);
            let ret = chain_return_type(a);
            assert(args == seq![*a.arg]);
            assert(args[0] == *a.arg);
            assert(args.subrange(1, args.len() as int) =~= Seq::<Type>::empty());
            assert(arrow_chain(Seq::<Type>::empty(), ret) == ret);
            assert(arrow_chain(args, ret) == Type::Arrow(
                Arrow { arg: Box::new(args[0]), ret: Box::new(ret) },
            ));
            assert(a == (Arrow { arg: a.arg, ret: a.ret }));
        },
    }
}

/// Rendering is pure: the result depends only on the type value and the
/// position flag, so rendering the same value twice with the same flag
/// yields identical strings.
pub proof fn lemma_rendering_deterministic(t1: Type, t2: Type, flag1: bool, flag2: bool)
    requires
        t1 == t2,
        flag1 == flag2,
    ensures
        rendered(t1, flag1) == rendered(t2, flag2),
{
}

/// An arrow rendered in argument position is exactly its return
/// position rendering wrapped in one leading `(` and one trailing `)`.
pub proof fn lemma_argument_arrow_parenthesized(a: Arrow)
    ensures
        rendered(Type::Arrow(a), false) == "("@ + rendered(Type::Arrow(a), true) + ")"@,
{
}

impl Variable {
    /// Renders as `t` followed by the variable's number in decimal.
    pub fn show(&self, _is_return: bool) -> (r: String)
        ensures
            r@ == rendered(Type::Variable(*self), _is_return),
    {
        let mut s = String::from_str("t");
        push_decimal(&mut s, self.number);
        s
    }
}

} // verus!
