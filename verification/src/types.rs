//! Types of the language: scalars, arrays and function signatures.
use vstd::prelude::*;

verus! {

/// Primitive (scalar) types.
#[derive(Clone, Copy, Debug, PartialEq, Eq, Structural)]
pub enum PrimType {
    Bool,
    Char,
    Int,
    String,
    Void,
}

/// A formal parameter of a function signature: the name's index in the
/// string table and its declared type.
#[derive(Debug)]
pub struct Param {
    pub name: usize,
    pub dtype: Type,
}

/// A type.  `Undeclared` stands for the type of something that could not be
/// resolved; it compares equal to every type, so that one error does not
/// cascade into many.  An array's size is `None` where it is left open, as
/// in a parameter `array [] type` (arrays are passed by reference); such an
/// array matches arrays of any size.
#[derive(Debug)]
pub enum Type {
    Undeclared,
    Scalar(PrimType),
    Array { size: Option<usize>, dtype: Box<Type> },
    Function { dtype: Box<Type>, params: Vec<Param> },
}

/// Mathematical model of a [`Type`]: the same tree, with sequences in place
/// of vectors.
pub enum TypeM {
    Undeclared,
    Scalar(PrimType),
    Array { size: Option<usize>, dtype: Box<TypeM> },
    Function { dtype: Box<TypeM>, params: Seq<ParamM> },
}

/// Mathematical model of a [`Param`].
pub struct ParamM {
    pub name: usize,
    pub dtype: TypeM,
}

impl Type {
    pub open spec fn model(self) -> TypeM
        decreases self,
    {
        match self {
            Type::Undeclared => TypeM::Undeclared,
            Type::Scalar(p) => TypeM::Scalar(p),
            Type::Array { size, dtype } => TypeM::Array { size, dtype: Box::new((*dtype).model()) },
            Type::Function { dtype, params } => TypeM::Function {
                dtype: Box::new((*dtype).model()),
                params: Seq::new(
                    params@.len(),
                    |i: int|
                        {
                            if 0 <= i < params@.len() {
                                proof {
                                    vstd::std_specs::vec::axiom_vec_index_decreases(params, i);
                                }
                                ParamM { name: params@[i].name, dtype: params@[i].dtype.model() }
                            } else {
                                ParamM { name: 0, dtype: TypeM::Undeclared }
                            }
                        },
                ),
            },
        }
    }

    /// `array [size] dtype`
    pub fn make_array(size: usize, dtype: Type) -> (r: Type)
        ensures
            r.model() == (TypeM::Array { size: Some(size), dtype: Box::new(dtype.model()) }),
    {
        let dtype = Box::new(dtype);
        Type::Array { size: Some(size), dtype }
    }

    /// `array [] dtype`: an array whose size is left open.
    pub fn make_open_array(dtype: Type) -> (r: Type)
        ensures
            r.model() == (TypeM::Array { size: None, dtype: Box::new(dtype.model()) }),
    {
        let dtype = Box::new(dtype);
        Type::Array { size: None, dtype }
    }

    /// `function dtype (params)`
    pub fn make_signature(dtype: Type, params: Vec<Param>) -> (r: Type)
        ensures
            r.model() == (TypeM::Function {
                dtype: Box::new(dtype.model()),
                params: params_model(params@),
            }),
    {
        let r = Type::Function { dtype: Box::new(dtype), params };
        proof {
            lemma_function_model(r);
            assert(r.model()->Function_params =~= params_model(params@));
        }
        r
    }
}

/// The models of a sequence of parameters.
pub open spec fn params_model(ps: Seq<Param>) -> Seq<ParamM> {
    ps.map_values(|p: Param| ParamM { name: p.name, dtype: p.dtype.model() })
}

/// The model of a scalar type.
pub open spec fn scalar(p: PrimType) -> TypeM {
    TypeM::Scalar(p)
}

/// Two array sizes match when they are equal or one of them is left open.
pub open spec fn sizes_match(a: Option<usize>, b: Option<usize>) -> bool {
    a is None || b is None || a == b
}

/// Type equality as the language uses it: structural, except that
/// `Undeclared` matches anything.
pub open spec fn type_compat(a: TypeM, b: TypeM) -> bool
    decreases a,
{
    match a {
        TypeM::Undeclared => true,
        TypeM::Scalar(x) => match b {
            TypeM::Undeclared => true,
            TypeM::Scalar(y) => x == y,
            _ => false,
        },
        TypeM::Array { size, dtype } => match b {
            TypeM::Undeclared => true,
            TypeM::Array { size: s2, dtype: d2 } => sizes_match(size, s2) && type_compat(
                *dtype,
                *d2,
            ),
            _ => false,
        },
        TypeM::Function { dtype, params } => match b {
            TypeM::Undeclared => true,
            TypeM::Function { dtype: d2, params: p2 } => type_compat(*dtype, *d2) && params.len()
                == p2.len() && forall|i: int|
                #![trigger params[i]]
                0 <= i < params.len() ==> params[i].name == p2[i].name && type_compat(
                    params[i].dtype,
                    p2[i].dtype,
                ),
            _ => false,
        },
    }
}

/// The model of a function type lists the models of its parameters.
pub proof fn lemma_function_model(t: Type)
    requires
        t is Function,
    ensures
        t.model() is Function,
        t.model()->Function_params.len() == t->Function_params@.len(),
        forall|i: int|
            0 <= i < t->Function_params@.len() ==> #[trigger] t.model()->Function_params[i] == (
            ParamM { name: t->Function_params@[i].name, dtype: t->Function_params@[i].dtype.model() }),
{
}

/// Every type is compatible with itself.
pub proof fn lemma_type_compat_reflexive(a: TypeM)
    ensures
        type_compat(a, a),
    decreases a,
{
    match a {
        TypeM::Array { dtype, .. } => {
            lemma_type_compat_reflexive(*dtype);
        },
        TypeM::Function { dtype, params } => {
            lemma_type_compat_reflexive(*dtype);
            assert forall|i: int| #![trigger params[i]] 0 <= i < params.len() implies type_compat(
                params[i].dtype,
                params[i].dtype,
            ) by {
                lemma_type_compat_reflexive(params[i].dtype);
            }
        },
        _ => {},
    }
}

/// Type compatibility is symmetric.
pub proof fn lemma_type_compat_symmetric(a: TypeM, b: TypeM)
    ensures
        type_compat(a, b) == type_compat(b, a),
    decreases a,
{
    match (a, b) {
        (TypeM::Array { dtype: d1, .. }, TypeM::Array { dtype: d2, .. }) => {
            lemma_type_compat_symmetric(*d1, *d2);
        },
        (TypeM::Function { dtype: d1, params: p1 }, TypeM::Function { dtype: d2, params: p2 }) => {
            lemma_type_compat_symmetric(*d1, *d2);
            if p1.len() == p2.len() {
                assert forall|i: int| 0 <= i < p1.len() implies type_compat(p1[i].dtype, p2[i].dtype)
                    == type_compat(p2[i].dtype, p1[i].dtype) by {
                    lemma_type_compat_symmetric(p1[i].dtype, p2[i].dtype);
                }
                if type_compat(b, a) && !type_compat(a, b) {
                    assert(type_compat(*d1, *d2));
                    let i = choose|i: int|
                        #![trigger p1[i]]
                        0 <= i < p1.len() && !(p1[i].name == p2[i].name && type_compat(
                            p1[i].dtype,
                            p2[i].dtype,
                        ));
                    assert(p2[i].name == p1[i].name && type_compat(p2[i].dtype, p1[i].dtype));
                }
                if type_compat(a, b) && !type_compat(b, a) {
                    assert(type_compat(*d2, *d1));
                    let i = choose|i: int|
                        #![trigger p2[i]]
                        0 <= i < p2.len() && !(p2[i].name == p1[i].name && type_compat(
                            p2[i].dtype,
                            p1[i].dtype,
                        ));
                    assert(p1[i].name == p2[i].name && type_compat(p1[i].dtype, p2[i].dtype));
                }
            }
        },
        _ => {},
    }
}

/// Arrays match only arrays of matching elements: two array types that are
/// compatible have compatible element types, and sizes that are equal where
/// both are given; arrays of the same element type whose sizes are equal or
/// left open are compatible.
pub proof fn lemma_array_compat(s1: Option<usize>, d1: TypeM, s2: Option<usize>, d2: TypeM)
    ensures
        type_compat(
            TypeM::Array { size: s1, dtype: Box::new(d1) },
            TypeM::Array { size: s2, dtype: Box::new(d2) },
        ) ==> type_compat(d1, d2) && (s1 is Some && s2 is Some ==> s1 == s2),
        (s1 is None || s2 is None || s1 == s2) ==> type_compat(
            TypeM::Array { size: s1, dtype: Box::new(d1) },
            TypeM::Array { size: s2, dtype: Box::new(d1) },
        ),
        d1 is Scalar && d2 is Scalar && d1 != d2 ==> !type_compat(
            TypeM::Array { size: s1, dtype: Box::new(d1) },
            TypeM::Array { size: s2, dtype: Box::new(d2) },
        ),
{
    lemma_type_compat_reflexive(d1);
    if d1 is Scalar && d2 is Scalar && d1 != d2 {
        assert(d1->Scalar_0 != d2->Scalar_0);
        assert(!type_compat(d1, d2));
    }
}

/// `Undeclared` is compatible with every type, on either side.
pub proof fn lemma_undeclared_matches_all(t: TypeM)
    ensures
        type_compat(TypeM::Undeclared, t),
        type_compat(t, TypeM::Undeclared),
{
}

/// Types of different shapes (scalar, array, function) never compare equal.
pub proof fn lemma_shapes_differ(t: TypeM, u: TypeM)
    requires
        !(t is Undeclared),
        !(u is Undeclared),
        (t is Scalar) != (u is Scalar) || (t is Array) != (u is Array) || (t is Function) != (
        u is Function),
    ensures
        !type_compat(t, u),
{
}

/// A copy of a type, with the same model.
#[verifier::loop_isolation(false)]
pub fn clone_type(t: &Type) -> (r: Type)
    ensures
        r.model() == t.model(),
    decreases t,
{
    match t {
        Type::Undeclared => Type::Undeclared,
        Type::Scalar(p) => Type::Scalar(*p),
        Type::Array { size, dtype } => Type::Array { size: *size, dtype: Box::new(clone_type(dtype)) },
        Type::Function { dtype, params } => {
            let mut ps: Vec<Param> = Vec::new();
            let mut i: usize = 0;
            while i < params.len()
                invariant
                    i <= params.len(),
                    ps@.len() == i,
                    forall|j: int|
                        0 <= j < i ==> ps@[j].name == params@[j].name && ps@[j].dtype.model()
                            == params@[j].dtype.model(),
                decreases params.len() - i,
            {
                proof {
                    vstd::std_specs::vec::axiom_vec_index_decreases(*params, i as int);
                }
                let p = Param { name: params[i].name, dtype: clone_type(&params[i].dtype) };
                ps.push(p);
                i += 1;
            }
            let r = Type::Function { dtype: Box::new(clone_type(dtype)), params: ps };
            proof {
                lemma_function_model(r);
                lemma_function_model(*t);
                assert(r.model()->Function_params =~= t.model()->Function_params);
            }
            r
        },
    }
}

impl Clone for Type {
    fn clone(&self) -> (r: Self)
        ensures
            r.model() == self.model(),
    {
        clone_type(self)
    }
}

impl Clone for Param {
    fn clone(&self) -> (r: Self)
        ensures
            r.name == self.name,
            r.dtype.model() == self.dtype.model(),
    {
        Param { name: self.name, dtype: clone_type(&self.dtype) }
    }
}

/// Decides [`type_compat`] on two types.
#[verifier::loop_isolation(false)]
pub fn type_eq(a: &Type, b: &Type) -> (r: bool)
    ensures
        r == type_compat(a.model(), b.model()),
    decreases a,
{
    match (a, b) {
        (Type::Undeclared, _) => true,
        (_, Type::Undeclared) => true,
        (Type::Scalar(x), Type::Scalar(y)) => *x == *y,
        (Type::Array { size: s1, dtype: d1 }, Type::Array { size: s2, dtype: d2 }) => {
            let sizes = match (s1, s2) {
                (Some(x), Some(y)) => *x == *y,
                _ => true,
            };
            sizes && type_eq(d1, d2)
        },
        (Type::Function { dtype: d1, params: p1 }, Type::Function { dtype: d2, params: p2 }) => {
            proof {
                lemma_function_model(*a);
                lemma_function_model(*b);
            }
            if !type_eq(d1, d2) {
                return false;
            }
            if p1.len() != p2.len() {
                return false;
            }
            let mut i: usize = 0;
            while i < p1.len()
                invariant
                    i <= p1.len(),
                    p1.len() == p2.len(),
                    forall|j: int|
                        0 <= j < i ==> p1@[j].name == p2@[j].name && type_compat(
                            p1@[j].dtype.model(),
                            p2@[j].dtype.model(),
                        ),
                decreases p1.len() - i,
            {
                if p1[i].name != p2[i].name {
                    assert(!type_compat(a.model(), b.model())) by {
                        let pa = a.model()->Function_params;
                        let pb = b.model()->Function_params;
                        assert(!(pa[i as int].name == pb[i as int].name && type_compat(
                            pa[i as int].dtype,
                            pb[i as int].dtype,
                        )));
                    }
                    return false;
                }
                proof {
                    vstd::std_specs::vec::axiom_vec_index_decreases(*p1, i as int);
                }
                if !type_eq(&p1[i].dtype, &p2[i].dtype) {
                    assert(!type_compat(a.model(), b.model())) by {
                        let pa = a.model()->Function_params;
                        let pb = b.model()->Function_params;
                        assert(!(pa[i as int].name == pb[i as int].name && type_compat(
                            pa[i as int].dtype,
                            pb[i as int].dtype,
                        )));
                    }
                    return false;
                }
                i += 1;
            }
            true
        },
        _ => false,
    }
}

impl PartialEq for Type {
    fn eq(&self, other: &Self) -> (r: bool) {
        type_eq(self, other)
    }
}

impl vstd::std_specs::cmp::PartialEqSpecImpl for Type {
    open spec fn obeys_eq_spec() -> bool {
        true
    }

    open spec fn eq_spec(&self, other: &Self) -> bool {
        type_compat(self.model(), other.model())
    }
}

impl Eq for Type {

}

impl PartialEq for Param {
    fn eq(&self, other: &Self) -> (r: bool) {
        self.name == other.name && type_eq(&self.dtype, &other.dtype)
    }
}

impl vstd::std_specs::cmp::PartialEqSpecImpl for Param {
    open spec fn obeys_eq_spec() -> bool {
        true
    }

    open spec fn eq_spec(&self, other: &Self) -> bool {
        self.name == other.name && type_compat(self.dtype.model(), other.dtype.model())
    }
}

impl Eq for Param {

}


/// How a scalar type is written.
pub open spec fn prim_text(p: PrimType) -> Seq<char> {
    match p {
        PrimType::Bool => "boolean"@,
        PrimType::Char => "char"@,
        PrimType::Int => "integer"@,
        PrimType::String => "string"@,
        PrimType::Void => "void"@,
    }
}

impl PrimType {
    /// How the type is written.
    pub fn to_string(&self) -> (r: String)
        ensures
            r@ == prim_text(*self),
    {
        let text: &str = match self {
            PrimType::Bool => "boolean",
            PrimType::Char => "char",
            PrimType::Int => "integer",
            PrimType::String => "string",
            PrimType::Void => "void",
        };
        text.to_owned()
    }
}

impl Type {
    /// How a scalar or undeclared type is written (arrays and functions
    /// have no text yet).
    pub fn to_string(&self) -> (r: String)
        requires
            self is Undeclared || self is Scalar,
        ensures
            r@ == match self.model() {
                TypeM::Scalar(p) => prim_text(p),
                _ => "undeclared"@,
            },
    {
        match self {
            Type::Scalar(p) => p.to_string(),
            _ => "undeclared".to_owned(),
        }
    }
}
} // verus!
