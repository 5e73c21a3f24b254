//! Swizzle accessors for vector types.
//!
//! For a struct with named fields, every selection of 2, 3 or 4 of its fields
//! (repetitions allowed, in any order) becomes a method named after the
//! selected fields, which returns `Self` when the selection is as long as the
//! struct has fields and `Vec2`, `Vec3` or `Vec4` otherwise. This module lists
//! the selections and writes the source of the trait and its impl.
use vstd::prelude::*;
use vstd::string::*;

verus! {

/// Every selection of `d` fields out of `n`, in lexicographic order.
pub open spec fn tuples(n: nat, d: nat) -> Seq<Seq<usize>>
    decreases d, 0nat,
{
    if d == 0 {
        seq![Seq::<usize>::empty()]
    } else {
        prefixed(tuples((n) as nat, (d - 1) as nat), n)
    }
}

/// `ts` prefixed with each first field below `x`, first fields ascending.
pub open spec fn prefixed(ts: Seq<Seq<usize>>, x: nat) -> Seq<Seq<usize>>
    decreases x,
{
    if x == 0 {
        Seq::empty()
    } else {
        prefixed(ts, (x - 1) as nat) + ts.map_values(|t: Seq<usize>| seq![(x - 1) as usize] + t)
    }
}

/// All selections, of 2, then 3, then 4 fields.
pub open spec fn all_selections(n: nat) -> Seq<Seq<usize>> {
    tuples(n, 2) + tuples(n, 3) + tuples(n, 4)
}

/// The contents of a list of vectors.
pub open spec fn deep(v: Seq<Vec<usize>>) -> Seq<Seq<usize>> {
    v.map_values(|e: Vec<usize>| e@)
}

/// Every selection of `d` fields out of `n`.
fn selections(n: usize, d: usize) -> (r: Vec<Vec<usize>>)
    requires
        d <= 4,
    ensures
        deep(r@) == tuples(n as nat, d as nat),
    decreases d,
{
    if d == 0 {
        let mut out: Vec<Vec<usize>> = Vec::new();
        out.push(Vec::new());
        assert(deep(out@) =~= seq![Seq::<usize>::empty()]);
        return out;
    }
    let inner = selections(n, d - 1);
    let ghost ts = tuples(n as nat, (d - 1) as nat);
    let mut out: Vec<Vec<usize>> = Vec::new();
    let mut x: usize = 0;
    while x < n
        invariant
            0 <= x <= n,
            deep(inner@) == ts,
            deep(out@) == prefixed(ts, x as nat),
        decreases n - x,
    {
        let ghost start = deep(out@);
        let mut j: usize = 0;
        while j < inner.len()
            invariant
                0 <= j <= inner@.len(),
                deep(inner@) == ts,
                deep(out@) == start + ts.take(j as int).map_values(
                    |t: Seq<usize>| seq![x as usize] + t,
                ),
            decreases inner@.len() - j,
        {
            let mut v: Vec<usize> = Vec::new();
            v.push(x);
            let mut m: usize = 0;
            while m < inner[j].len()
                invariant
                    0 <= m <= inner@[j as int]@.len(),
                    j < inner@.len(),
                    v@ == seq![x as usize] + inner@[j as int]@.take(m as int),
                decreases inner@[j as int]@.len() - m,
            {
                v.push(inner[j][m]);
                assert(inner@[j as int]@.take(m + 1) =~= inner@[j as int]@.take(m as int).push(
                    inner@[j as int]@[m as int],
                ));
                m = m + 1;
            }
            assert(inner@[j as int]@.take(m as int) =~= inner@[j as int]@);
            let ghost before = deep(out@);
            out.push(v);
            proof {
                assert(deep(out@) =~= before.push(v@));
                assert(ts[j as int] == inner@[j as int]@);
                assert(ts.take(j + 1).map_values(|t: Seq<usize>| seq![x as usize] + t) =~= ts.take(
                    j as int,
                ).map_values(|t: Seq<usize>| seq![x as usize] + t).push(seq![x as usize] + ts[j as int]));
            }
            j = j + 1;
        }
        assert(ts.take(j as int) =~= ts);
        x = x + 1;
    }
    out
}

/// Every selection of 2, 3 or 4 fields out of `n`, in the order the methods are written.
pub fn swizzle_selections(n: usize) -> (r: Vec<Vec<usize>>)
    ensures
        deep(r@) == all_selections(n as nat),
{
    let mut out = selections(n, 2);
    let mut three = selections(n, 3);
    let mut four = selections(n, 4);
    let ghost a = out@;
    let ghost b = three@;
    out.append(&mut three);
    let ghost ab = out@;
    let ghost c = four@;
    out.append(&mut four);
    assert(deep(a + b) =~= deep(a) + deep(b));
    assert(deep(ab + c) =~= deep(ab) + deep(c));
    out
}

/// The contents of the field names.
pub open spec fn names(fields: Seq<String>) -> Seq<Seq<char>> {
    fields.map_values(|f: String| f@)
}

/// The return type of a selection of `d` fields out of `n`.
pub open spec fn return_text(n: nat, d: nat) -> Seq<char> {
    if n == d {
        "Self"@
    } else if d == 2 {
        "Vec2"@
    } else if d == 3 {
        "Vec3"@
    } else {
        "Vec4"@
    }
}

/// The method name of a selection: the selected field names, concatenated.
pub open spec fn method_name(f: Seq<Seq<char>>, t: Seq<usize>) -> Seq<char>
    decreases t.len(),
{
    if t.len() == 0 {
        Seq::empty()
    } else {
        method_name(f, t.drop_last()) + f[t.last() as int]
    }
}

/// The body of the method of a selection.
pub open spec fn body_text(f: Seq<Seq<char>>, n: nat, t: Seq<usize>) -> Seq<char> {
    let head = return_text(n, t.len()) + " {x:self."@ + f[t[0] as int] + ", y:self."@ + f[t[1] as int];
    if t.len() == 2 {
        head + " }"@
    } else if t.len() == 3 {
        head + ",z:self."@ + f[t[2] as int] + " }"@
    } else {
        head + ",z:self."@ + f[t[2] as int] + ", w:self."@ + f[t[3] as int] + " }"@
    }
}

/// The declaration of the method of a selection in the trait.
pub open spec fn declaration(f: Seq<Seq<char>>, n: nat, t: Seq<usize>) -> Seq<char> {
    "fn "@ + method_name(f, t) + "(self) -> "@ + return_text(n, t.len()) + ";\n"@
}

/// The definition of the method of a selection in the impl.
pub open spec fn definition(f: Seq<Seq<char>>, n: nat, t: Seq<usize>) -> Seq<char> {
    "fn "@ + method_name(f, t) + "(self) -> "@ + return_text(n, t.len()) + " { "@ + body_text(f, n, t)
        + " }"@
}

/// The declarations of a list of selections, in order.
pub open spec fn declarations(f: Seq<Seq<char>>, n: nat, ts: Seq<Seq<usize>>) -> Seq<char>
    decreases ts.len(),
{
    if ts.len() == 0 {
        Seq::empty()
    } else {
        declarations(f, n, ts.drop_last()) + declaration(f, n, ts.last())
    }
}

/// The definitions of a list of selections, in order.
pub open spec fn definitions(f: Seq<Seq<char>>, n: nat, ts: Seq<Seq<usize>>) -> Seq<char>
    decreases ts.len(),
{
    if ts.len() == 0 {
        Seq::empty()
    } else {
        definitions(f, n, ts.drop_last()) + definition(f, n, ts.last())
    }
}

/// The source of the swizzle trait of a struct.
pub open spec fn trait_source(name: Seq<char>, f: Seq<Seq<char>>) -> Seq<char> {
    "///Swizzle functions for "@ + name + "\npub trait "@ + name + "Swizzles {\n"@ + declarations(
        f,
        f.len(),
        all_selections(f.len()),
    ) + "}"@
}

/// The source of the impl of the swizzle trait for a struct.
pub open spec fn impl_source(name: Seq<char>, f: Seq<Seq<char>>) -> Seq<char> {
    "impl "@ + name + "Swizzles for "@ + name + " {"@ + definitions(f, f.len(), all_selections(f.len()))
        + "}"@
}

/// Return type of a selection of `d` fields out of `n`.
fn return_name(n: usize, d: usize) -> (r: &'static str)
    ensures
        r@ == return_text(n as nat, d as nat),
{
    if n == d {
        "Self"
    } else if d == 2 {
        "Vec2"
    } else if d == 3 {
        "Vec3"
    } else {
        "Vec4"
    }
}

proof fn lemma_selection_shape(n: nat, d: nat, k: int)
    requires
        n <= usize::MAX,
        0 <= k < tuples(n, d).len(),
    ensures
        tuples(n, d)[k].len() == d,
        forall|j: int| 0 <= j < d ==> (#[trigger] tuples(n, d)[k][j]) < n,
    decreases d, n + 1,
{
    if d > 0 {
        let ts = tuples(n, (d - 1) as nat);
        lemma_prefixed_shape(ts, n, (d - 1) as nat, n, k);
    }
}

proof fn lemma_prefixed_shape(ts: Seq<Seq<usize>>, n: nat, d: nat, x: nat, k: int)
    requires
        ts == tuples(n, d),
        n <= usize::MAX,
        x <= n,
        0 <= k < prefixed(ts, x).len(),
    ensures
        prefixed(ts, x)[k].len() == d + 1,
        forall|j: int| 0 <= j < d + 1 ==> (#[trigger] prefixed(ts, x)[k][j]) < n,
    decreases d + 1, x,
{
    let p = prefixed(ts, (x - 1) as nat);
    if k < p.len() {
        lemma_prefixed_shape(ts, n, d, (x - 1) as nat, k);
    } else {
        let i = k - p.len();
        lemma_selection_shape(n, d, i);
        let t = ts[i];
        assert(prefixed(ts, x)[k] == seq![(x - 1) as usize] + t);
    }
}

/// Appends the selected field names.
fn push_name(out: &mut String, fields: &Vec<String>, t: &Vec<usize>)
    requires
        forall|j: int| 0 <= j < t@.len() ==> (#[trigger] t@[j]) < fields@.len(),
    ensures
        final(out)@ == old(out)@ + method_name(names(fields@), t@),
{
    let mut j: usize = 0;
    while j < t.len()
        invariant
            0 <= j <= t@.len(),
            forall|m: int| 0 <= m < t@.len() ==> (#[trigger] t@[m]) < fields@.len(),
            out@ == old(out)@ + method_name(names(fields@), t@.take(j as int)),
        decreases t@.len() - j,
    {
        out.append(fields[t[j]].as_str());
        assert(t@.take(j + 1).drop_last() =~= t@.take(j as int));
        j = j + 1;
    }
    assert(t@.take(j as int) =~= t@);
}

/// Appends the declaration and the definition of the method of one selection.
fn write_selection(decl: &mut String, imp: &mut String, fields: &Vec<String>, t: &Vec<usize>)
    requires
        2 <= t@.len() <= 4,
        forall|j: int| 0 <= j < t@.len() ==> (#[trigger] t@[j]) < fields@.len(),
    ensures
        final(decl)@ == old(decl)@ + declaration(names(fields@), fields@.len(), t@),
        final(imp)@ == old(imp)@ + definition(names(fields@), fields@.len(), t@),
{
    let n = fields.len();
    let d = t.len();
    let ret = return_name(n, d);
    let ghost f = names(fields@);
    decl.append("fn ");
    push_name(decl, fields, t);
    decl.append("(self) -> ");
    decl.append(ret);
    decl.append(";\n");
    assert(decl@ =~= old(decl)@ + declaration(f, n as nat, t@));
    imp.append("fn ");
    push_name(imp, fields, t);
    imp.append("(self) -> ");
    imp.append(ret);
    imp.append(" { ");
    let ghost before_body = imp@;
    imp.append(ret);
    imp.append(" {x:self.");
    imp.append(fields[t[0]].as_str());
    imp.append(", y:self.");
    imp.append(fields[t[1]].as_str());
    if d >= 3 {
        imp.append(",z:self.");
        imp.append(fields[t[2]].as_str());
    }
    if d >= 4 {
        imp.append(", w:self.");
        imp.append(fields[t[3]].as_str());
    }
    imp.append(" }");
    assert(imp@ =~= before_body + body_text(f, n as nat, t@));
    imp.append(" }");
    assert(imp@ =~= old(imp)@ + definition(f, n as nat, t@));
}

/// Writes the source of the swizzle trait of the struct `name` and of its impl.
pub fn swizzle_source(name: &str, fields: &Vec<String>) -> (r: (String, String))
    ensures
        r.0@ == trait_source(name@, names(fields@)),
        r.1@ == impl_source(name@, names(fields@)),
{
    let n = fields.len();
    let ghost f = names(fields@);
    let all = swizzle_selections(n);
    let mut decl = String::new();
    decl.append("///Swizzle functions for ");
    decl.append(name);
    decl.append("\npub trait ");
    decl.append(name);
    decl.append("Swizzles {\n");
    let mut imp = String::new();
    imp.append("impl ");
    imp.append(name);
    imp.append("Swizzles for ");
    imp.append(name);
    imp.append(" {");
    let ghost decl_head = decl@;
    let ghost imp_head = imp@;
    let ghost ts = all_selections(n as nat);
    assert forall|k: int| 0 <= k < ts.len() implies (#[trigger] ts[k]).len() >= 2 && ts[k].len() <= 4
        && forall|j: int| 0 <= j < ts[k].len() ==> ts[k][j] < n by {
        let a = tuples(n as nat, 2);
        let b = tuples(n as nat, 3);
        let c = tuples(n as nat, 4);
        if k < a.len() {
            lemma_selection_shape(n as nat, 2, k);
        } else if k < a.len() + b.len() {
            lemma_selection_shape(n as nat, 3, k - a.len());
        } else {
            lemma_selection_shape(n as nat, 4, k - a.len() - b.len());
        }
    }
    let mut i: usize = 0;
    while i < all.len()
        invariant
            0 <= i <= all@.len(),
            n == fields@.len(),
            f == names(fields@),
            deep(all@) == ts,
            forall|k: int| 0 <= k < ts.len() ==> (#[trigger] ts[k]).len() >= 2 && ts[k].len() <= 4
                && forall|j: int| 0 <= j < ts[k].len() ==> ts[k][j] < n,
            decl@ == decl_head + declarations(f, n as nat, ts.take(i as int)),
            imp@ == imp_head + definitions(f, n as nat, ts.take(i as int)),
        decreases all@.len() - i,
    {
        let t = &all[i];
        assert(t@ == ts[i as int]);
        let ghost decl_before = decl@;
        let ghost imp_before = imp@;
        write_selection(&mut decl, &mut imp, fields, t);
        proof {
            assert(ts.take(i + 1).drop_last() =~= ts.take(i as int));
            assert(ts.take(i + 1).last() == t@);
            assert(decl@ =~= decl_before + declaration(f, n as nat, t@));
            assert(imp@ =~= imp_before + definition(f, n as nat, t@));
        }
        i = i + 1;
    }
    assert(ts.take(i as int) =~= ts);
    decl.append("}");
    imp.append("}");
    (decl, imp)
}

proof fn lemma_prefixed_len(ts: Seq<Seq<usize>>, x: nat)
    ensures
        prefixed(ts, x).len() == x * ts.len(),
    decreases x,
{
    if x > 0 {
        lemma_prefixed_len(ts, (x - 1) as nat);
        assert(x * ts.len() == (x - 1) * ts.len() + ts.len()) by (nonlinear_arith);
        assert(ts.map_values(|t: Seq<usize>| seq![(x - 1) as usize] + t).len() == ts.len());
    } else {
        assert(0 * ts.len() == 0) by (nonlinear_arith);
    }
}

/// There are N^2 + N^3 + N^4 swizzles for a struct with N fields.
pub proof fn law_swizzle_count(n: nat)
    ensures
        all_selections(n).len() == n * n + n * n * n + n * n * n * n,
{
    reveal_with_fuel(tuples, 5);
    let t0 = tuples(n, 0);
    let t1 = tuples(n, 1);
    let t2 = tuples(n, 2);
    let t3 = tuples(n, 3);
    lemma_prefixed_len(t0, n);
    lemma_prefixed_len(t1, n);
    lemma_prefixed_len(t2, n);
    lemma_prefixed_len(t3, n);
    assert(t1.len() == n * 1);
    assert(t2.len() == n * n);
    assert(tuples(n, 3).len() == n * (n * n));
    assert(tuples(n, 4).len() == n * (n * (n * n)));
    assert(n * (n * n) == n * n * n) by (nonlinear_arith);
    assert(n * (n * (n * n)) == n * n * n * n) by (nonlinear_arith);
}

/// The shape of the item that swizzles are asked for.
#[derive(Clone, Copy, Debug, PartialEq, Eq, Structural)]
pub enum ItemShape {
    /// A struct with named fields.
    NamedStruct,
    /// A struct with unnamed fields.
    TupleStruct,
    /// A struct without fields.
    UnitStruct,
    /// An enum.
    Enum,
    /// A union.
    Union,
}

/// The source that replaces an item that cannot get swizzles: a compile
/// error for anything but a struct with named fields.
pub fn shape_error(shape: ItemShape) -> (r: Option<&'static str>)
    ensures
        match shape {
            ItemShape::NamedStruct => r is None,
            ItemShape::TupleStruct | ItemShape::UnitStruct => r matches Some(t) && t@
                == "compile_error!(\"Must have named fields\")"@,
            ItemShape::Enum | ItemShape::Union => r matches Some(t) && t@
                == "compile_error!(\"Must be a struct\")"@,
        },
{
    match shape {
        ItemShape::NamedStruct => None,
        ItemShape::TupleStruct | ItemShape::UnitStruct => Some("compile_error!(\"Must have named fields\")"),
        ItemShape::Enum | ItemShape::Union => Some("compile_error!(\"Must be a struct\")"),
    }
}

/// The label of the `j`-th component of a vector: `x`, `y`, `z`, `w`.
pub open spec fn component_label(j: int) -> char {
    if j == 0 {
        'x'
    } else if j == 1 {
        'y'
    } else if j == 2 {
        'z'
    } else {
        'w'
    }
}

/// What the generated source writes before the assignment of the `j`-th
/// component: ` {` before the first, `,` before the third, `, ` before the others.
pub open spec fn separator(j: int) -> Seq<char> {
    if j == 0 {
        seq![' ', '{']
    } else if j == 2 {
        seq![',']
    } else {
        seq![',', ' ']
    }
}

/// The assignments of the first `k` components of a selection: component `j`
/// takes the `j`-th selected field, `label:self.field`.
pub open spec fn assignments(f: Seq<Seq<char>>, t: Seq<usize>, k: nat) -> Seq<char>
    decreases k,
{
    if k == 0 {
        Seq::empty()
    } else {
        assignments(f, t, (k - 1) as nat) + separator(k - 1) + seq![component_label(k - 1), ':', 's', 'e', 'l', 'f', '.']
            + f[t[k - 1] as int]
    }
}

/// The method of a selection builds its result from the selected fields in
/// order: the `j`-th component of the result (`x`, `y`, `z`, `w`) is the
/// `j`-th field of the selection, the `j`-th part of the method's name.
pub proof fn law_swizzle_assignments(f: Seq<Seq<char>>, n: nat, t: Seq<usize>)
    requires
        2 <= t.len() <= 4,
    ensures
        body_text(f, n, t) == return_text(n, t.len()) + assignments(f, t, t.len()) + seq![' ', '}'],
{
    reveal_strlit(" {x:self.");
    reveal_strlit(", y:self.");
    reveal_strlit(",z:self.");
    reveal_strlit(", w:self.");
    reveal_strlit(" }");
    let lx = " {x:self."@;
    let ly = ", y:self."@;
    let lz = ",z:self."@;
    let lw = ", w:self."@;
    assert(lx =~= separator(0) + seq![component_label(0), ':', 's', 'e', 'l', 'f', '.']);
    assert(ly =~= separator(1) + seq![component_label(1), ':', 's', 'e', 'l', 'f', '.']);
    assert(lz =~= separator(2) + seq![component_label(2), ':', 's', 'e', 'l', 'f', '.']);
    assert(lw =~= separator(3) + seq![component_label(3), ':', 's', 'e', 'l', 'f', '.']);
    assert(" }"@ =~= seq![' ', '}']);
    let a1 = assignments(f, t, 1);
    assert(assignments(f, t, 0) =~= Seq::<char>::empty());
    assert(a1 =~= lx + f[t[0] as int]);
    let a2 = assignments(f, t, 2);
    assert(a2 =~= lx + f[t[0] as int] + ly + f[t[1] as int]);
    if t.len() == 2 {
        assert(body_text(f, n, t) =~= return_text(n, t.len()) + a2 + seq![' ', '}']);
    } else {
        let a3 = assignments(f, t, 3);
        assert(a3 =~= a2 + lz + f[t[2] as int]);
        if t.len() == 3 {
            assert(body_text(f, n, t) =~= return_text(n, t.len()) + a3 + seq![' ', '}']);
        } else {
            let a4 = assignments(f, t, 4);
            assert(a4 =~= a3 + lw + f[t[3] as int]);
            assert(body_text(f, n, t) =~= return_text(n, t.len()) + a4 + seq![' ', '}']);
        }
    }
}
} // verus!
