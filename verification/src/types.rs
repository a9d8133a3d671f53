//! The types of values in the expression language
use vstd::prelude::*;
use crate::text::{join_sep, string_views, owned, push_str, join_strings};

verus! {

broadcast use vstd::std_specs::vec::group_vec_axioms;

/// A type in the expression language.
#[derive(PartialEq, Debug)]
pub enum Type {
    Value,
    String,
    Fn { args: Vec<Type>, variadic_arg: Option<Box<Type>>, return_type: Box<Type> },
    Bool,
    Type(Box<Type>),
    Unknown,
}

/// The mathematical model of a [`Type`].
pub enum TypeM {
    Value,
    String,
    Fn { args: Seq<TypeM>, variadic_arg: Option<Box<TypeM>>, return_type: Box<TypeM> },
    Bool,
    Type(Box<TypeM>),
    Unknown,
}

/// The model of a type.
pub open spec fn type_view(t: &Type) -> TypeM
    decreases t,
{
    match t {
        Type::Value => TypeM::Value,
        Type::String => TypeM::String,
        Type::Fn { args, variadic_arg, return_type } => TypeM::Fn {
            args: types_view(args@),
            variadic_arg: match variadic_arg {
                Some(b) => Some(Box::new(type_view(&**b))),
                None => None,
            },
            return_type: Box::new(type_view(&**return_type)),
        },
        Type::Bool => TypeM::Bool,
        Type::Type(b) => TypeM::Type(Box::new(type_view(&**b))),
        Type::Unknown => TypeM::Unknown,
    }
}

/// The models of a sequence of types.
pub open spec fn types_view(ts: Seq<Type>) -> Seq<TypeM>
    decreases ts,
{
    if ts.len() == 0 {
        Seq::empty()
    } else {
        seq![type_view(&ts[0])] + types_view(ts.drop_first())
    }
}

impl View for Type {
    type V = TypeM;

    open spec fn view(&self) -> TypeM {
        type_view(self)
    }
}


impl TypeM {
    /// Whether this is a `Type<..>` type.
    pub open spec fn is_type_type(self) -> bool {
        self is Type
    }
}

/// The models of a sequence of types, one by one.
pub proof fn lemma_types_view(ts: Seq<Type>)
    ensures
        types_view(ts).len() == ts.len(),
        forall|i: int| 0 <= i < ts.len() ==> #[trigger] types_view(ts)[i] == type_view(&ts[i]),
    decreases ts.len(),
{
    if ts.len() > 0 {
        lemma_types_view(ts.drop_first());
        assert forall|i: int| 0 <= i < ts.len() implies #[trigger] types_view(ts)[i] == type_view(&ts[i]) by {
            if i > 0 {
                assert(ts.drop_first()[i - 1] == ts[i]);
            }
        }
    }
}

/// The display name of a type, such as `Fn(Value, ...String) -> Bool`.
pub open spec fn ty_name(t: TypeM) -> Seq<char>
    decreases t,
{
    match t {
        TypeM::Value => "Value"@,
        TypeM::String => "String"@,
        TypeM::Fn { args, variadic_arg, return_type } => "Fn("@ + join_sep(
            match variadic_arg {
                Some(v) => ty_names(args).push("..."@ + ty_name(*v)),
                None => ty_names(args),
            },
            ", "@,
        ) + ") -> "@ + ty_name(*return_type),
        TypeM::Bool => "Bool"@,
        TypeM::Type(inner) => "Type<"@ + ty_name(*inner) + ">"@,
        TypeM::Unknown => "Unknown"@,
    }
}

/// The names of a sequence of types.
pub open spec fn ty_names(ts: Seq<TypeM>) -> Seq<Seq<char>>
    decreases ts,
{
    if ts.len() == 0 {
        Seq::empty()
    } else {
        seq![ty_name(ts[0])] + ty_names(ts.drop_first())
    }
}

/// The names of a sequence of types, one by one.
pub proof fn lemma_ty_names(ts: Seq<TypeM>)
    ensures
        ty_names(ts).len() == ts.len(),
        forall|i: int| 0 <= i < ts.len() ==> #[trigger] ty_names(ts)[i] == ty_name(ts[i]),
    decreases ts.len(),
{
    if ts.len() > 0 {
        lemma_ty_names(ts.drop_first());
        assert forall|i: int| 0 <= i < ts.len() implies #[trigger] ty_names(ts)[i] == ty_name(ts[i]) by {
            if i > 0 {
                assert(ts.drop_first()[i - 1] == ts[i]);
            }
        }
    }
}

impl Type {
    /// The display name of the type.
    #[verifier::loop_isolation(false)]
    pub fn name(&self) -> (r: String)
        ensures
            r@ == ty_name(self@),
        decreases self,
    {
        match self {
            Type::Value => owned("Value"),
            Type::String => owned("String"),
            Type::Fn { args, variadic_arg, return_type } => {
                let mut parts: Vec<String> = Vec::new();
                let ghost ms = types_view(args@);
                proof {
                    lemma_types_view(args@);
                    lemma_ty_names(ms);
                }
                let mut i: usize = 0;
                while i < args.len()
                    invariant
                        i <= args.len(),
                        ms == types_view(args@),
                        ms.len() == args.len(),
                        forall|k: int| 0 <= k < args.len() ==> #[trigger] ms[k] == type_view(&args@[k]),
                        ty_names(ms).len() == ms.len(),
                        forall|k: int| 0 <= k < ms.len() ==> #[trigger] ty_names(ms)[k] == ty_name(ms[k]),
                        string_views(parts@) =~= ty_names(ms).take(i as int),
                    decreases args.len() - i,
                {
                    let n = args[i].name();
                    parts.push(n);
                    assert(string_views(parts@) =~= ty_names(ms).take(i + 1));
                    i = i + 1;
                }
                assert(ty_names(ms).take(args.len() as int) =~= ty_names(ms));
                match variadic_arg {
                    Some(v) => {
                        let mut vn = owned("...");
                        let inner = v.name();
                        push_str(&mut vn, inner.as_str());
                        parts.push(vn);
                        assert(string_views(parts@) =~= ty_names(ms).push("..."@ + ty_name(type_view(&**v))));
                    },
                    None => {},
                }
                let joined = join_strings(&parts, ", ");
                let mut r = owned("Fn(");
                push_str(&mut r, joined.as_str());
                push_str(&mut r, ") -> ");
                let rn = return_type.name();
                push_str(&mut r, rn.as_str());
                r
            },
            Type::Bool => owned("Bool"),
            Type::Type(inner) => {
                let mut r = owned("Type<");
                let n = inner.name();
                push_str(&mut r, n.as_str());
                push_str(&mut r, ">");
                r
            },
            Type::Unknown => owned("Unknown"),
        }
    }

    /// Whether this is a `Type<..>` type.
    pub fn is_type(&self) -> (r: bool)
        ensures
            r == self@.is_type_type(),
    {
        match self {
            Type::Type(_) => true,
            _ => false,
        }
    }

    /// A copy of this type.
    pub fn duplicate(&self) -> (r: Type)
        ensures
            r@ == self@,
        decreases self,
    {
        match self {
            Type::Value => Type::Value,
            Type::String => Type::String,
            Type::Fn { args, variadic_arg, return_type } => {
                let r_args = duplicate_types(args);
                let r_var = match variadic_arg {
                    Some(v) => Some(Box::new(v.duplicate())),
                    None => None,
                };
                let r_ret = Box::new(return_type.duplicate());
                Type::Fn { args: r_args, variadic_arg: r_var, return_type: r_ret }
            },
            Type::Bool => Type::Bool,
            Type::Type(inner) => Type::Type(Box::new(inner.duplicate())),
            Type::Unknown => Type::Unknown,
        }
    }

    /// Whether two types are the same.
    #[verifier::loop_isolation(false)]
    pub fn same_as(&self, other: &Type) -> (r: bool)
        ensures
            r == (self@ == other@),
        decreases self,
    {
        match (self, other) {
            (Type::Value, Type::Value) => true,
            (Type::String, Type::String) => true,
            (Type::Bool, Type::Bool) => true,
            (Type::Unknown, Type::Unknown) => true,
            (Type::Type(a), Type::Type(b)) => a.same_as(b),
            (
                Type::Fn { args: a1, variadic_arg: v1, return_type: r1 },
                Type::Fn { args: a2, variadic_arg: v2, return_type: r2 },
            ) => {
                proof {
                    lemma_types_view(a1@);
                    lemma_types_view(a2@);
                }
                if a1.len() != a2.len() {
                    return false;
                }
                let mut i: usize = 0;
                while i < a1.len()
                    invariant
                        i <= a1.len() == a2.len(),
                        types_view(a1@).len() == a1.len(),
                        types_view(a2@).len() == a2.len(),
                        forall|k: int| 0 <= k < a1.len() ==> #[trigger] types_view(a1@)[k] == type_view(&a1@[k]),
                        forall|k: int| 0 <= k < a2.len() ==> #[trigger] types_view(a2@)[k] == type_view(&a2@[k]),
                        forall|k: int| 0 <= k < i ==> types_view(a1@)[k] == types_view(a2@)[k],
                    decreases a1.len() - i,
                {
                    if !a1[i].same_as(&a2[i]) {
                        assert(types_view(a1@)[i as int] != types_view(a2@)[i as int]);
                        return false;
                    }
                    i = i + 1;
                }
                assert(types_view(a1@) =~= types_view(a2@));
                let vs = match (v1, v2) {
                    (Some(x), Some(y)) => x.same_as(y),
                    (None, None) => true,
                    _ => false,
                };
                if !vs {
                    return false;
                }
                r1.same_as(r2)
            },
            _ => false,
        }
    }
}

#[verifier::loop_isolation(false)]
fn duplicate_types(ts: &Vec<Type>) -> (r: Vec<Type>)
    ensures
        types_view(r@) == types_view(ts@),
    decreases ts,
{
    let mut r: Vec<Type> = Vec::new();
    let mut i: usize = 0;
    proof {
        lemma_types_view(ts@);
    }
    while i < ts.len()
        invariant
            i <= ts.len(),
            r.len() == i,
            forall|k: int| 0 <= k < i ==> #[trigger] type_view(&r@[k]) == type_view(&ts@[k]),
        decreases ts.len() - i,
    {
        let t = ts[i].duplicate();
        r.push(t);
        i = i + 1;
    }
    proof {
        lemma_types_view(r@);
        assert(types_view(r@) =~= types_view(ts@));
    }
    r
}

} // verus!
