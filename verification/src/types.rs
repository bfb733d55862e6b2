use vstd::prelude::*;
use vstd::string::StringExecFns;

verus! {

broadcast use vstd::std_specs::vec::group_vec_axioms;

/// A type of the stack language. Types are themselves first-class data and
/// compare structurally; `Procedure` is a stack transformer carrying its
/// parameter and result types in order.
#[derive(Debug, PartialEq)]
pub enum Type {
    Type,
    Integer,
    Bool,
    Procedure(Vec<Type>, Vec<Type>),
}

/// Mathematical model of a `Type`: the same tree with sequences in place of
/// vectors, so that equality of models is structural and extensional.
#[verifier::ext_equal]
pub enum TypeView {
    Type,
    Integer,
    Bool,
    Procedure(Seq<TypeView>, Seq<TypeView>),
}

/// Model of the first `n` elements of a sequence of types.
pub open spec fn types_view_to(ts: Seq<Type>, n: int) -> Seq<TypeView>
    decreases ts, n,
{
    if n <= 0 || n > ts.len() {
        Seq::empty()
    } else {
        types_view_to(ts, n - 1).push(ts[n - 1]@)
    }
}

/// Model of a sequence of types, element by element.
pub open spec fn types_view(ts: Seq<Type>) -> Seq<TypeView>
    decreases ts, ts.len() as int + 1,
{
    types_view_to(ts, ts.len() as int)
}

impl View for Type {
    type V = TypeView;

    open spec fn view(&self) -> TypeView
        decreases self, 0int,
    {
        match self {
            Type::Type => TypeView::Type,
            Type::Integer => TypeView::Integer,
            Type::Bool => TypeView::Bool,
            Type::Procedure(params, results) => TypeView::Procedure(
                types_view(params@),
                types_view(results@),
            ),
        }
    }
}

proof fn lemma_types_view_to(ts: Seq<Type>, n: int)
    requires
        0 <= n <= ts.len(),
    ensures
        types_view_to(ts, n).len() == n,
        forall|i: int| 0 <= i < n ==> types_view_to(ts, n)[i] == ts[i]@,
    decreases n,
{
    if n > 0 {
        lemma_types_view_to(ts, n - 1);
        assert(types_view_to(ts, n) == types_view_to(ts, n - 1).push(ts[n - 1]@));
        assert forall|i: int| 0 <= i < n implies types_view_to(ts, n)[i] == ts[i]@ by {
            if i < n - 1 {
                assert(types_view_to(ts, n - 1)[i] == ts[i]@);
            }
        }
    }
}

/// The model of a sequence of types has the same length and is the model of
/// the elements, pointwise.
pub broadcast proof fn lemma_types_view(ts: Seq<Type>)
    ensures
        (#[trigger] types_view(ts)).len() == ts.len(),
        forall|i: int| 0 <= i < ts.len() ==> types_view(ts)[i] == ts[i]@,
{
    lemma_types_view_to(ts, ts.len() as int);
}

/// Appending a type appends its model.
pub proof fn lemma_types_view_push(s: Seq<Type>, x: Type)
    ensures
        types_view(s.push(x)) == types_view(s).push(x@),
{
    lemma_types_view(s.push(x));
    lemma_types_view(s);
    assert(types_view(s.push(x)) =~= types_view(s).push(x@));
}

/// Dropping the last type drops the last model element.
pub proof fn lemma_types_view_drop_last(s: Seq<Type>)
    requires
        s.len() > 0,
    ensures
        types_view(s.drop_last()) == types_view(s).drop_last(),
{
    lemma_types_view(s.drop_last());
    lemma_types_view(s);
    assert(types_view(s.drop_last()) =~= types_view(s).drop_last());
}

/// Structural equality of types, the equality the checker builds on.
pub fn type_equal(a: &Type, b: &Type) -> (r: bool)
    ensures
        r == (a@ == b@),
    decreases a, 0int,
{
    match (a, b) {
        (Type::Type, Type::Type) => true,
        (Type::Integer, Type::Integer) => true,
        (Type::Bool, Type::Bool) => true,
        (Type::Procedure(ap, ar), Type::Procedure(bp, br)) => {
            let pe = types_equal(ap, bp);
            let re = types_equal(ar, br);
            pe && re
        },
        _ => false,
    }
}

/// Structural equality of two lists of types.
pub fn types_equal(a: &Vec<Type>, b: &Vec<Type>) -> (r: bool)
    ensures
        r == (types_view(a@) == types_view(b@)),
    decreases a@, 0int,
{
    proof {
        lemma_types_view(a@);
        lemma_types_view(b@);
    }
    if a.len() != b.len() {
        return false;
    }
    let mut i: usize = 0;
    while i < a.len()
        invariant
            i <= a@.len(),
            a@.len() == b@.len(),
            forall|j: int| 0 <= j < i ==> types_view(a@)[j] == types_view(b@)[j],
        decreases a@.len() - i,
    {
        proof {
            lemma_types_view(a@);
            lemma_types_view(b@);
        }
        if !type_equal(&a[i], &b[i]) {
            proof {
                assert(types_view(a@)[i as int] != types_view(b@)[i as int]);
            }
            return false;
        }
        i += 1;
    }
    proof {
        lemma_types_view(a@);
        lemma_types_view(b@);
        assert(types_view(a@) =~= types_view(b@));
    }
    true
}

/// Deep copy of a type; the copy has the same model.
pub fn clone_type(t: &Type) -> (r: Type)
    ensures
        r@ == t@,
    decreases t, 0int,
{
    match t {
        Type::Type => Type::Type,
        Type::Integer => Type::Integer,
        Type::Bool => Type::Bool,
        Type::Procedure(ps, rs) => Type::Procedure(clone_types(ps), clone_types(rs)),
    }
}

/// Deep copy of a list of types, preserving the model element by element.
pub fn clone_types(ts: &Vec<Type>) -> (r: Vec<Type>)
    ensures
        types_view(r@) == types_view(ts@),
    decreases ts@, 0int,
{
    let mut r: Vec<Type> = Vec::new();
    let mut i: usize = 0;
    while i < ts.len()
        invariant
            i <= ts@.len(),
            r@.len() == i,
            forall|j: int| 0 <= j < i ==> r@[j]@ == ts@[j]@,
        decreases ts@.len() - i,
    {
        let c = clone_type(&ts[i]);
        r.push(c);
        i += 1;
    }
    proof {
        lemma_types_view(r@);
        lemma_types_view(ts@);
        assert(types_view(r@) =~= types_view(ts@));
    }
    r
}

/// The rendering of a type: `type`, `int`, `bool`, or
/// `proc[..] -> [..]` with space-separated inner renderings.
pub open spec fn type_text(t: TypeView) -> Seq<char>
    decreases t, 0int,
{
    match t {
        TypeView::Type => "type"@,
        TypeView::Integer => "int"@,
        TypeView::Bool => "bool"@,
        TypeView::Procedure(params, results) => "proc["@ + types_text_to(
            params,
            params.len() as int,
        ) + "] -> ["@ + types_text_to(results, results.len() as int) + "]"@,
    }
}

/// Space-separated renderings of the first `n` types of `ts`.
pub open spec fn types_text_to(ts: Seq<TypeView>, n: int) -> Seq<char>
    decreases ts, n,
{
    if n <= 0 || n > ts.len() {
        Seq::empty()
    } else if n == 1 {
        type_text(ts[0])
    } else {
        types_text_to(ts, n - 1) + " "@ + type_text(ts[n - 1])
    }
}

/// Comma-separated, bracketed renderings of a list of types, the form the
/// checker's diagnostics use.
pub open spec fn types_list_text(ts: Seq<TypeView>) -> Seq<char> {
    "["@ + types_listed_to(ts, ts.len() as int) + "]"@
}

/// Comma-separated renderings of the first `n` types of `ts`.
pub open spec fn types_listed_to(ts: Seq<TypeView>, n: int) -> Seq<char>
    decreases ts, n,
{
    if n <= 0 || n > ts.len() {
        Seq::empty()
    } else if n == 1 {
        type_text(ts[0])
    } else {
        types_listed_to(ts, n - 1) + ", "@ + type_text(ts[n - 1])
    }
}

/// Renders `t` after `out`, per `type_text`.
pub fn push_type_text(out: &mut String, t: &Type)
    ensures
        final(out)@ == old(out)@ + type_text(t@),
    decreases t, 0int,
{
    match t {
        Type::Type => out.append("type"),
        Type::Integer => out.append("int"),
        Type::Bool => out.append("bool"),
        Type::Procedure(ps, rs) => {
            out.append("proc[");
            push_types_text(out, ps);
            out.append("] -> [");
            push_types_text(out, rs);
            out.append("]");
            proof {
                lemma_types_view(ps@);
                lemma_types_view(rs@);
                assert(out@ =~= old(out)@ + type_text(t@));
            }
        },
    }
}

/// Renders the elements of `ts` after `out`, separated by single spaces.
fn push_types_text(out: &mut String, ts: &Vec<Type>)
    ensures
        final(out)@ == old(out)@ + types_text_to(types_view(ts@), ts@.len() as int),
    decreases ts@, 0int,
{
    let mut i: usize = 0;
    proof {
        assert(out@ =~= old(out)@ + types_text_to(types_view(ts@), 0));
    }
    while i < ts.len()
        invariant
            i <= ts@.len(),
            out@ == old(out)@ + types_text_to(types_view(ts@), i as int),
        decreases ts@.len() - i,
    {
        if i > 0 {
            out.append(" ");
        }
        push_type_text(out, &ts[i]);
        proof {
            lemma_types_view(ts@);
            assert(out@ =~= old(out)@ + types_text_to(types_view(ts@), i as int + 1));
        }
        i += 1;
    }
}

/// Renders the elements of `ts` after `out`, comma-separated in brackets.
pub fn push_types_list(out: &mut String, ts: &Vec<Type>)
    ensures
        final(out)@ == old(out)@ + types_list_text(types_view(ts@)),
    decreases ts@, 0int,
{
    out.append("[");
    let ghost mid = out@;
    let mut i: usize = 0;
    proof {
        assert(out@ =~= mid + types_listed_to(types_view(ts@), 0));
    }
    while i < ts.len()
        invariant
            i <= ts@.len(),
            mid == old(out)@ + "["@,
            out@ == mid + types_listed_to(types_view(ts@), i as int),
        decreases ts@.len() - i,
    {
        if i > 0 {
            out.append(", ");
        }
        push_type_text(out, &ts[i]);
        proof {
            lemma_types_view(ts@);
            assert(out@ =~= mid + types_listed_to(types_view(ts@), i as int + 1));
        }
        i += 1;
    }
    out.append("]");
    proof {
        lemma_types_view(ts@);
        assert(out@ =~= old(out)@ + types_list_text(types_view(ts@)));
    }
}

impl Type {
    /// The human-readable rendering of this type.
    pub fn display(&self) -> (out: String)
        ensures
            out@ == type_text(self@),
    {
        let mut out = String::new();
        push_type_text(&mut out, self);
        proof {
            assert(out@ =~= type_text(self@));
        }
        out
    }
}

} // verus!
