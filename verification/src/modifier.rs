//! The modifier algebra: modifiers combine into a binary tree whose leaves,
//! read left to right, are the elements a layout node is decorated with.

use vstd::prelude::*;

verus! {

/// One node of a modifier tree.
///
/// An element is described by the key of the node type it creates, the
/// kinds that node declares and the kind set it starts with; a composed
/// modifier names its factory by key.
#[derive(Debug)]
pub enum ModifierInternal {
    Unit,
    ModifierNodeElement { key: u64, node_kind: u32, kind_set: u32 },
    ComposedModifier { factory: u64 },
    Combined { left: Box<ModifierInternal>, right: Box<ModifierInternal> },
}

/// A modifier: the empty one, an element, a composed modifier, or two
/// modifiers applied one after the other.
#[derive(Debug)]
pub struct Modifier {
    pub inner: ModifierInternal,
}

/// The leaves of a modifier tree, left to right.
pub open spec fn leaves(m: ModifierInternal) -> Seq<ModifierInternal>
    decreases m,
{
    match m {
        ModifierInternal::Combined { left, right } => leaves(*left) + leaves(*right),
        _ => seq![m],
    }
}

/// The leaves of a modifier tree that are not the empty modifier.
pub open spec fn elements(m: ModifierInternal) -> Seq<ModifierInternal>
    decreases m,
{
    match m {
        ModifierInternal::Unit => Seq::empty(),
        ModifierInternal::Combined { left, right } => elements(*left) + elements(*right),
        _ => seq![m],
    }
}

/// No empty modifier stands below a combination.
pub open spec fn is_normal(m: ModifierInternal) -> bool
    decreases m,
{
    match m {
        ModifierInternal::Combined { left, right } => {
            &&& !(*left is Unit)
            &&& !(*right is Unit)
            &&& is_normal(*left)
            &&& is_normal(*right)
        },
        _ => true,
    }
}

/// The number of tree nodes, used to bound traversals.
pub open spec fn tree_size(m: ModifierInternal) -> nat
    decreases m,
{
    match m {
        ModifierInternal::Combined { left, right } => 1 + tree_size(*left) + tree_size(*right),
        _ => 1,
    }
}

/// `a` followed by `b`, where the empty modifier is dropped.
pub open spec fn then_spec(a: ModifierInternal, b: ModifierInternal) -> ModifierInternal {
    if a is Unit {
        b
    } else if b is Unit {
        a
    } else {
        ModifierInternal::Combined { left: Box::new(a), right: Box::new(b) }
    }
}

pub open spec fn is_composed(m: ModifierInternal) -> bool {
    m is ComposedModifier
}

pub open spec fn has_composed(s: Seq<ModifierInternal>) -> bool {
    exists|i: int| 0 <= i < s.len() && is_composed(#[trigger] s[i])
}

/// `trace` records a left fold of `op` over `s`: `trace[i + 1]` is a result
/// of `op` applied to `trace[i]` and `s[i]`.
pub open spec fn fold_in_trace<R, F: Fn(R, &ModifierInternal) -> R>(
    op: F,
    s: Seq<ModifierInternal>,
    trace: Seq<R>,
) -> bool {
    &&& trace.len() == s.len() + 1
    &&& forall|i: int| #![trigger s[i]] 0 <= i < s.len() ==> call_ensures(op, (trace[i], &s[i]), trace[i + 1])
}

/// `res` is a result of folding `op` over `s` from the left, starting at `init`.
pub open spec fn folds_in<R, F: Fn(R, &ModifierInternal) -> R>(
    op: F,
    init: R,
    s: Seq<ModifierInternal>,
    res: R,
) -> bool {
    exists|trace: Seq<R>|
        #[trigger] fold_in_trace(op, s, trace) && trace[0] == init && trace[s.len() as int] == res
}

/// `trace` records a right fold of `op` over `s`: `trace[i]` is a result of
/// `op` applied to `s[i]` and `trace[i + 1]`.
pub open spec fn fold_out_trace<R, F: Fn(&ModifierInternal, R) -> R>(
    op: F,
    s: Seq<ModifierInternal>,
    trace: Seq<R>,
) -> bool {
    &&& trace.len() == s.len() + 1
    &&& forall|i: int| #![trigger s[i]] 0 <= i < s.len() ==> call_ensures(op, (&s[i], trace[i + 1]), trace[i])
}

/// `res` is a result of folding `op` over `s` from the right, starting at `init`.
pub open spec fn folds_out<R, F: Fn(&ModifierInternal, R) -> R>(
    op: F,
    init: R,
    s: Seq<ModifierInternal>,
    res: R,
) -> bool {
    exists|trace: Seq<R>|
        #[trigger] fold_out_trace(op, s, trace) && trace[s.len() as int] == init && trace[0] == res
}

/// One step of materialisation: a composed leaf hands the result so far to
/// its factory, any other leaf is appended to it.
pub open spec fn materialize_step<F: Fn(u64, Modifier) -> Modifier>(
    factories: F,
    acc: Modifier,
    leaf: ModifierInternal,
    res: Modifier,
) -> bool {
    match leaf {
        ModifierInternal::ComposedModifier { factory } => call_ensures(factories, (factory, acc), res),
        _ => res.inner == then_spec(acc.inner, leaf),
    }
}

pub open spec fn materialize_trace<F: Fn(u64, Modifier) -> Modifier>(
    factories: F,
    s: Seq<ModifierInternal>,
    trace: Seq<Modifier>,
) -> bool {
    &&& trace.len() == s.len() + 1
    &&& forall|i: int| #![trigger s[i]] 0 <= i < s.len() ==> materialize_step(factories, trace[i], s[i], trace[i + 1])
}

/// `res` is a result of materialising the leaves `s` onto `init`, left to right.
pub open spec fn materializes<F: Fn(u64, Modifier) -> Modifier>(
    factories: F,
    init: Modifier,
    s: Seq<ModifierInternal>,
    res: Modifier,
) -> bool {
    exists|trace: Seq<Modifier>|
        #[trigger] materialize_trace(factories, s, trace) && trace[0] == init && trace[s.len() as int] == res
}

proof fn lemma_folds_in_concat<R, F: Fn(R, &ModifierInternal) -> R>(
    op: F,
    a: R,
    s1: Seq<ModifierInternal>,
    b: R,
    s2: Seq<ModifierInternal>,
    c: R,
)
    requires
        folds_in(op, a, s1, b),
        folds_in(op, b, s2, c),
    ensures
        folds_in(op, a, s1 + s2, c),
{
    let t1 = choose|t: Seq<R>| #[trigger] fold_in_trace(op, s1, t) && t[0] == a && t[s1.len() as int] == b;
    let t2 = choose|t: Seq<R>| #[trigger] fold_in_trace(op, s2, t) && t[0] == b && t[s2.len() as int] == c;
    let s = s1 + s2;
    let t = t1 + t2.drop_first();
    let n1 = s1.len() as int;
    assert forall|i: int| #![trigger s[i]] 0 <= i < s.len() implies call_ensures(op, (t[i], &s[i]), t[i + 1]) by {
        if i < n1 {
            assert(s[i] == s1[i]);
        } else {
            assert(s[i] == s2[i - n1]);
            assert(t[i] == t2[i - n1]);
            assert(t[i + 1] == t2[i - n1 + 1]);
        }
    }
    assert(fold_in_trace(op, s, t));
    assert(t[s.len() as int] == c);
}

proof fn lemma_folds_out_concat<R, F: Fn(&ModifierInternal, R) -> R>(
    op: F,
    a: R,
    s2: Seq<ModifierInternal>,
    b: R,
    s1: Seq<ModifierInternal>,
    c: R,
)
    requires
        folds_out(op, a, s2, b),
        folds_out(op, b, s1, c),
    ensures
        folds_out(op, a, s1 + s2, c),
{
    let t2 = choose|t: Seq<R>| #[trigger] fold_out_trace(op, s2, t) && t[s2.len() as int] == a && t[0] == b;
    let t1 = choose|t: Seq<R>| #[trigger] fold_out_trace(op, s1, t) && t[s1.len() as int] == b && t[0] == c;
    let s = s1 + s2;
    let t = t1.drop_last() + t2;
    let n1 = s1.len() as int;
    assert forall|i: int| #![trigger s[i]] 0 <= i < s.len() implies call_ensures(op, (&s[i], t[i + 1]), t[i]) by {
        if i < n1 {
            assert(s[i] == s1[i]);
            assert(t[i] == t1[i]);
            assert(t[i + 1] == t1[i + 1]);
        } else {
            assert(s[i] == s2[i - n1]);
            assert(t[i] == t2[i - n1]);
            assert(t[i + 1] == t2[i - n1 + 1]);
        }
    }
    assert(fold_out_trace(op, s, t));
    assert(t[s.len() as int] == a);
}

proof fn lemma_materializes_concat<F: Fn(u64, Modifier) -> Modifier>(
    factories: F,
    a: Modifier,
    s1: Seq<ModifierInternal>,
    b: Modifier,
    s2: Seq<ModifierInternal>,
    c: Modifier,
)
    requires
        materializes(factories, a, s1, b),
        materializes(factories, b, s2, c),
    ensures
        materializes(factories, a, s1 + s2, c),
{
    let t1 = choose|t: Seq<Modifier>| #[trigger] materialize_trace(factories, s1, t) && t[0] == a && t[s1.len() as int] == b;
    let t2 = choose|t: Seq<Modifier>| #[trigger] materialize_trace(factories, s2, t) && t[0] == b && t[s2.len() as int] == c;
    let s = s1 + s2;
    let t = t1 + t2.drop_first();
    let n1 = s1.len() as int;
    assert forall|i: int| #![trigger s[i]] 0 <= i < s.len() implies materialize_step(factories, t[i], s[i], t[i + 1]) by {
        if i < n1 {
            assert(s[i] == s1[i]);
        } else {
            assert(s[i] == s2[i - n1]);
            assert(t[i] == t2[i - n1]);
            assert(t[i + 1] == t2[i - n1 + 1]);
        }
    }
    assert(materialize_trace(factories, s, t));
    assert(t[s.len() as int] == c);
}

/// The concatenated leaves of a stack of modifiers, top of the stack first.
pub open spec fn stack_leaves(s: Seq<Modifier>) -> Seq<ModifierInternal>
    decreases s.len(),
{
    if s.len() == 0 {
        Seq::empty()
    } else {
        leaves(s.last().inner) + stack_leaves(s.drop_last())
    }
}

pub open spec fn stack_size(s: Seq<Modifier>) -> nat
    decreases s.len(),
{
    if s.len() == 0 {
        0
    } else {
        tree_size(s.last().inner) + stack_size(s.drop_last())
    }
}

/// The inner trees of a sequence of modifiers.
pub open spec fn inners(s: Seq<Modifier>) -> Seq<ModifierInternal> {
    s.map_values(|m: Modifier| m.inner)
}

pub open spec fn unit_modifier() -> Modifier {
    Modifier { inner: ModifierInternal::Unit }
}

impl ModifierInternal {
    pub fn is_unit(&self) -> (b: bool)
        ensures
            b == (*self is Unit),
    {
        match self {
            ModifierInternal::Unit => true,
            _ => false,
        }
    }

    pub fn is_composed(&self) -> (b: bool)
        ensures
            b == is_composed(*self),
    {
        match self {
            ModifierInternal::ComposedModifier { .. } => true,
            _ => false,
        }
    }

    /// Folds `operation` over the leaves, left to right.
    pub fn fold_in<R, F: Fn(R, &ModifierInternal) -> R>(&self, initial: R, operation: &F) -> (r: R)
        requires
            forall|acc: R, i: int|
                0 <= i < leaves(*self).len() ==> call_requires(*operation, (acc, &#[trigger] leaves(*self)[i])),
        ensures
            folds_in(*operation, initial, leaves(*self), r),
        decreases *self,
    {
        match self {
            ModifierInternal::Combined { left, right } => {
                proof {
                    let ll = leaves(**left);
                    let lr = leaves(**right);
                    assert forall|acc: R, i: int| 0 <= i < ll.len() implies call_requires(*operation, (acc, &#[trigger] ll[i])) by {
                        assert(leaves(*self)[i] == ll[i]);
                    }
                    assert forall|acc: R, i: int| 0 <= i < lr.len() implies call_requires(*operation, (acc, &#[trigger] lr[i])) by {
                        assert(leaves(*self)[i + ll.len()] == lr[i]);
                    }
                }
                let mid = left.fold_in(initial, operation);
                let r = right.fold_in(mid, operation);
                proof {
                    lemma_folds_in_concat(*operation, initial, leaves(**left), mid, leaves(**right), r);
                }
                r
            },
            _ => {
                proof {
                    assert(leaves(*self)[0] == *self);
                }
                let r = operation(initial, self);
                proof {
                    let t = seq![initial, r];
                    assert(fold_in_trace(*operation, leaves(*self), t));
                }
                r
            },
        }
    }

    /// Folds `operation` over the leaves, right to left.
    pub fn fold_out<R, F: Fn(&ModifierInternal, R) -> R>(&self, initial: R, operation: &F) -> (r: R)
        requires
            forall|acc: R, i: int|
                0 <= i < leaves(*self).len() ==> call_requires(*operation, (&#[trigger] leaves(*self)[i], acc)),
        ensures
            folds_out(*operation, initial, leaves(*self), r),
        decreases *self,
    {
        match self {
            ModifierInternal::Combined { left, right } => {
                proof {
                    let ll = leaves(**left);
                    let lr = leaves(**right);
                    assert forall|acc: R, i: int| 0 <= i < ll.len() implies call_requires(*operation, (&#[trigger] ll[i], acc)) by {
                        assert(leaves(*self)[i] == ll[i]);
                    }
                    assert forall|acc: R, i: int| 0 <= i < lr.len() implies call_requires(*operation, (&#[trigger] lr[i], acc)) by {
                        assert(leaves(*self)[i + ll.len()] == lr[i]);
                    }
                }
                let mid = right.fold_out(initial, operation);
                let r = left.fold_out(mid, operation);
                proof {
                    lemma_folds_out_concat(*operation, initial, leaves(**right), mid, leaves(**left), r);
                }
                r
            },
            _ => {
                proof {
                    assert(leaves(*self)[0] == *self);
                }
                let r = operation(self, initial);
                proof {
                    let t = seq![r, initial];
                    assert(fold_out_trace(*operation, leaves(*self), t));
                }
                r
            },
        }
    }

    /// Whether `predicate` holds of some leaf; leaves right of the first
    /// hit are not asked.
    pub fn any<F: Fn(&ModifierInternal) -> bool>(&self, predicate: &F) -> (r: bool)
        requires
            forall|i: int| 0 <= i < leaves(*self).len() ==> call_requires(*predicate, (&#[trigger] leaves(*self)[i],)),
        ensures
            r ==> exists|i: int| 0 <= i < leaves(*self).len() && call_ensures(*predicate, (&#[trigger] leaves(*self)[i],), true),
            !r ==> forall|i: int| 0 <= i < leaves(*self).len() ==> call_ensures(*predicate, (&#[trigger] leaves(*self)[i],), false),
        decreases *self,
    {
        match self {
            ModifierInternal::Combined { left, right } => {
                let ghost ll = leaves(**left);
                let ghost lr = leaves(**right);
                proof {
                    assert forall|i: int| 0 <= i < ll.len() implies call_requires(*predicate, (&#[trigger] ll[i],)) by {
                        assert(leaves(*self)[i] == ll[i]);
                    }
                    assert forall|i: int| 0 <= i < lr.len() implies call_requires(*predicate, (&#[trigger] lr[i],)) by {
                        assert(leaves(*self)[i + ll.len()] == lr[i]);
                    }
                }
                if left.any(predicate) {
                    proof {
                        let i = choose|i: int| 0 <= i < ll.len() && call_ensures(*predicate, (&#[trigger] ll[i],), true);
                        assert(leaves(*self)[i] == ll[i]);
                    }
                    true
                } else {
                    let r = right.any(predicate);
                    proof {
                        if r {
                            let i = choose|i: int| 0 <= i < lr.len() && call_ensures(*predicate, (&#[trigger] lr[i],), true);
                            assert(leaves(*self)[i + ll.len()] == lr[i]);
                        } else {
                            assert forall|i: int| 0 <= i < leaves(*self).len() implies call_ensures(*predicate, (&#[trigger] leaves(*self)[i],), false) by {
                                if i < ll.len() {
                                    assert(leaves(*self)[i] == ll[i]);
                                } else {
                                    assert(leaves(*self)[i] == lr[i - ll.len()]);
                                }
                            }
                        }
                    }
                    r
                }
            },
            _ => {
                proof {
                    assert(leaves(*self)[0] == *self);
                }
                predicate(self)
            },
        }
    }

    /// Whether `predicate` holds of every leaf; leaves right of the first
    /// miss are not asked.
    pub fn all<F: Fn(&ModifierInternal) -> bool>(&self, predicate: &F) -> (r: bool)
        requires
            forall|i: int| 0 <= i < leaves(*self).len() ==> call_requires(*predicate, (&#[trigger] leaves(*self)[i],)),
        ensures
            r ==> forall|i: int| 0 <= i < leaves(*self).len() ==> call_ensures(*predicate, (&#[trigger] leaves(*self)[i],), true),
            !r ==> exists|i: int| 0 <= i < leaves(*self).len() && call_ensures(*predicate, (&#[trigger] leaves(*self)[i],), false),
        decreases *self,
    {
        match self {
            ModifierInternal::Combined { left, right } => {
                let ghost ll = leaves(**left);
                let ghost lr = leaves(**right);
                proof {
                    assert forall|i: int| 0 <= i < ll.len() implies call_requires(*predicate, (&#[trigger] ll[i],)) by {
                        assert(leaves(*self)[i] == ll[i]);
                    }
                    assert forall|i: int| 0 <= i < lr.len() implies call_requires(*predicate, (&#[trigger] lr[i],)) by {
                        assert(leaves(*self)[i + ll.len()] == lr[i]);
                    }
                }
                if !left.all(predicate) {
                    proof {
                        let i = choose|i: int| 0 <= i < ll.len() && call_ensures(*predicate, (&#[trigger] ll[i],), false);
                        assert(leaves(*self)[i] == ll[i]);
                    }
                    false
                } else {
                    let r = right.all(predicate);
                    proof {
                        if !r {
                            let i = choose|i: int| 0 <= i < lr.len() && call_ensures(*predicate, (&#[trigger] lr[i],), false);
                            assert(leaves(*self)[i + ll.len()] == lr[i]);
                        } else {
                            assert forall|i: int| 0 <= i < leaves(*self).len() implies call_ensures(*predicate, (&#[trigger] leaves(*self)[i],), true) by {
                                if i < ll.len() {
                                    assert(leaves(*self)[i] == ll[i]);
                                } else {
                                    assert(leaves(*self)[i] == lr[i - ll.len()]);
                                }
                            }
                        }
                    }
                    r
                }
            },
            _ => {
                proof {
                    assert(leaves(*self)[0] == *self);
                }
                predicate(self)
            },
        }
    }
}

/// A modifier made of one element: the node type with key `key`, whose
/// nodes declare the kinds `node_kind` and start with kind set `kind_set`.
#[allow(non_snake_case)]
pub fn ModifierNodeElement(key: u64, node_kind: u32, kind_set: u32) -> (m: Modifier)
    ensures
        m.inner == (ModifierInternal::ModifierNodeElement { key, node_kind, kind_set }),
{
    Modifier { inner: ModifierInternal::ModifierNodeElement { key, node_kind, kind_set } }
}

impl Default for Modifier {
    /// The empty modifier.
    fn default() -> (m: Modifier)
        ensures
            m == unit_modifier(),
    {
        Modifier { inner: ModifierInternal::Unit }
    }
}

impl From<ModifierInternal> for Modifier {
    fn from(value: ModifierInternal) -> (m: Modifier) {
        Modifier { inner: value }
    }
}

impl vstd::std_specs::convert::FromSpecImpl<ModifierInternal> for Modifier {
    open spec fn obeys_from_spec() -> bool {
        true
    }

    open spec fn from_spec(v: ModifierInternal) -> Modifier {
        Modifier { inner: v }
    }
}

impl From<Modifier> for ModifierInternal {
    fn from(value: Modifier) -> (m: ModifierInternal) {
        value.inner
    }
}

impl vstd::std_specs::convert::FromSpecImpl<Modifier> for ModifierInternal {
    open spec fn obeys_from_spec() -> bool {
        true
    }

    open spec fn from_spec(v: Modifier) -> ModifierInternal {
        v.inner
    }
}

/// Appends the leaves of `m`, left to right, to `acc`: a composed leaf
/// replaces the result so far by what its factory makes of it.
fn materialize_into<F: Fn(u64, Modifier) -> Modifier>(m: ModifierInternal, acc: Modifier, factories: &F) -> (r: Modifier)
    requires
        forall|id: u64, x: Modifier| call_requires(*factories, (id, x)),
    ensures
        materializes(*factories, acc, leaves(m), r),
    decreases m,
{
    let ghost whole = m;
    match m {
        ModifierInternal::Combined { left, right } => {
            let ghost l = *left;
            let ghost rt = *right;
            let mid = materialize_into(*left, acc, factories);
            let r = materialize_into(*right, mid, factories);
            proof {
                lemma_materializes_concat(*factories, acc, leaves(l), mid, leaves(rt), r);
            }
            r
        },
        ModifierInternal::ComposedModifier { factory } => {
            let ghost a = acc;
            let r = factories(factory, acc);
            proof {
                let t = seq![a, r];
                assert(leaves(whole)[0] == whole);
                assert(materialize_trace(*factories, leaves(whole), t));
            }
            r
        },
        _ => {
            let ghost a = acc;
            let r = acc.then_modifier(Modifier { inner: m });
            proof {
                let t = seq![a, r];
                assert(leaves(whole)[0] == whole);
                assert(materialize_trace(*factories, leaves(whole), t));
            }
            r
        },
    }
}

impl Modifier {
    pub fn is_unit(&self) -> (b: bool)
        ensures
            b == (self.inner is Unit),
    {
        self.inner.is_unit()
    }

    /// `self` followed by `modifier`; the empty modifier on either side is
    /// dropped.
    pub fn then_modifier(self, modifier: Modifier) -> (r: Modifier)
        ensures
            r.inner == then_spec(self.inner, modifier.inner),
    {
        if self.is_unit() {
            return modifier;
        }
        if modifier.is_unit() {
            return self;
        }
        Modifier { inner: ModifierInternal::Combined { left: Box::new(self.inner), right: Box::new(modifier.inner) } }
    }

    /// `self` followed by the composed modifier made by factory `factory`.
    pub fn composed(self, factory: u64) -> (r: Modifier)
        ensures
            r.inner == then_spec(self.inner, ModifierInternal::ComposedModifier { factory }),
    {
        self.then_modifier(Modifier { inner: ModifierInternal::ComposedModifier { factory } })
    }

    /// Whether this modifier is a single element.
    pub fn is_element(&self) -> (b: bool)
        ensures
            b == (self.inner is ModifierNodeElement),
    {
        match self.inner {
            ModifierInternal::ModifierNodeElement { .. } => true,
            _ => false,
        }
    }

    /// Folds `operation` over the leaves, left to right.
    pub fn fold_in<R, F: Fn(R, &ModifierInternal) -> R>(&self, initial: R, operation: F) -> (r: R)
        requires
            forall|acc: R, i: int|
                0 <= i < leaves(self.inner).len() ==> call_requires(operation, (acc, &#[trigger] leaves(self.inner)[i])),
        ensures
            folds_in(operation, initial, leaves(self.inner), r),
    {
        self.inner.fold_in(initial, &operation)
    }

    /// Folds `operation` over the leaves, right to left.
    pub fn fold_out<R, F: Fn(&ModifierInternal, R) -> R>(&self, initial: R, operation: F) -> (r: R)
        requires
            forall|acc: R, i: int|
                0 <= i < leaves(self.inner).len() ==> call_requires(operation, (&#[trigger] leaves(self.inner)[i], acc)),
        ensures
            folds_out(operation, initial, leaves(self.inner), r),
    {
        self.inner.fold_out(initial, &operation)
    }

    /// Whether `predicate` holds of some leaf.
    pub fn any<F: Fn(&ModifierInternal) -> bool>(&self, predicate: F) -> (r: bool)
        requires
            forall|i: int| 0 <= i < leaves(self.inner).len() ==> call_requires(predicate, (&#[trigger] leaves(self.inner)[i],)),
        ensures
            r ==> exists|i: int| 0 <= i < leaves(self.inner).len() && call_ensures(predicate, (&#[trigger] leaves(self.inner)[i],), true),
            !r ==> forall|i: int| 0 <= i < leaves(self.inner).len() ==> call_ensures(predicate, (&#[trigger] leaves(self.inner)[i],), false),
    {
        self.inner.any(&predicate)
    }

    /// Whether `predicate` holds of every leaf.
    pub fn all<F: Fn(&ModifierInternal) -> bool>(&self, predicate: F) -> (r: bool)
        requires
            forall|i: int| 0 <= i < leaves(self.inner).len() ==> call_requires(predicate, (&#[trigger] leaves(self.inner)[i],)),
        ensures
            r ==> forall|i: int| 0 <= i < leaves(self.inner).len() ==> call_ensures(predicate, (&#[trigger] leaves(self.inner)[i],), true),
            !r ==> exists|i: int| 0 <= i < leaves(self.inner).len() && call_ensures(predicate, (&#[trigger] leaves(self.inner)[i],), false),
    {
        self.inner.all(&predicate)
    }

    /// The leaves of this modifier, left to right, each as a modifier of its
    /// own.
    pub fn flatten(self) -> (r: Vec<Modifier>)
        ensures
            inners(r@) == leaves(self.inner),
    {
        let ghost whole = leaves(self.inner);
        let mut result: Vec<Modifier> = Vec::new();
        let mut stack: Vec<Modifier> = Vec::new();
        let ghost me = self;
        stack.push(self);
        proof {
            assert(stack@ =~= seq![me]);
            assert(stack@.drop_last() =~= Seq::<Modifier>::empty());
            assert(stack_leaves(stack@) == leaves(me.inner) + stack_leaves(stack@.drop_last()));
            assert(inners(result@) + stack_leaves(stack@) =~= whole);
        }
        while stack.len() > 0
            invariant
                inners(result@) + stack_leaves(stack@) == whole,
            decreases stack_size(stack@),
        {
            let ghost before = stack@;
            let next = stack.pop().unwrap();
            let ghost ni = next.inner;
            proof {
                assert(before.drop_last() =~= stack@);
                assert(before.last() == next);
                assert(stack_leaves(before) == leaves(ni) + stack_leaves(before.drop_last()));
                assert(stack_size(before) == tree_size(ni) + stack_size(before.drop_last()));
            }
            match next.inner {
                ModifierInternal::Combined { left, right } => {
                    let ghost l = *left;
                    let ghost rt = *right;
                    stack.push(Modifier { inner: *right });
                    let ghost mid = stack@;
                    stack.push(Modifier { inner: *left });
                    proof {
                        assert(mid.drop_last() =~= before.drop_last());
                        assert(stack@.drop_last() =~= mid);
                        assert(mid.last().inner == rt);
                        assert(stack@.last().inner == l);
                        assert(stack_leaves(mid) == leaves(rt) + stack_leaves(before.drop_last()));
                        assert(stack_leaves(stack@) == leaves(l) + stack_leaves(mid));
                        assert(stack_size(mid) == tree_size(rt) + stack_size(before.drop_last()));
                        assert(stack_size(stack@) == tree_size(l) + stack_size(mid));
                        assert(leaves(ni) == leaves(l) + leaves(rt));
                        assert(stack_leaves(stack@) =~= leaves(l) + (leaves(rt) + stack_leaves(before.drop_last())));
                    }
                },
                other => {
                    let ghost old_result = result@;
                    let ghost o = other;
                    result.push(Modifier { inner: other });
                    proof {
                        assert(leaves(o) =~= seq![o]);
                        assert(inners(result@) =~= inners(old_result).push(o));
                    }
                },
            }
        }
        proof {
            assert(stack_leaves(stack@) =~= Seq::<ModifierInternal>::empty());
            assert(inners(result@) =~= whole);
        }
        result
    }

    /// Replaces every composed part by what its factory makes of the parts
    /// before it; a modifier without composed parts is returned unchanged.
    pub fn materialize<F: Fn(u64, Modifier) -> Modifier>(self, factories: &F) -> (r: Modifier)
        requires
            forall|id: u64, x: Modifier| call_requires(*factories, (id, x)),
        ensures
            !has_composed(leaves(self.inner)) ==> r == self,
            has_composed(leaves(self.inner)) ==> materializes(*factories, unit_modifier(), leaves(self.inner), r),
    {
        let not_composed = |m: &ModifierInternal| -> (b: bool)
            ensures
                b == !is_composed(*m),
            { !m.is_composed() };
        if self.all(not_composed) {
            proof {
                let s = leaves(self.inner);
                assert forall|i: int| 0 <= i < s.len() implies !is_composed(#[trigger] s[i]) by {
                    assert(call_ensures(not_composed, (&s[i],), true));
                }
            }
            return self;
        }
        materialize_into(self.inner, Modifier::default(), factories)
    }
}

/// Appending one modifier to another appends their elements, so `then`
/// is associative on elements and the empty modifier adds none.
pub proof fn lemma_then_elements(a: ModifierInternal, b: ModifierInternal)
    ensures
        elements(then_spec(a, b)) == elements(a) + elements(b),
{
    if a is Unit {
        assert(elements(a) + elements(b) =~= elements(b));
    } else if b is Unit {
        assert(elements(a) + elements(b) =~= elements(a));
    }
}

/// The empty modifier is a two-sided identity of `then`.
pub proof fn lemma_then_unit(m: ModifierInternal)
    ensures
        then_spec(ModifierInternal::Unit, m) == m,
        then_spec(m, ModifierInternal::Unit) == m,
{
}

/// `then` keeps modifiers normal: no empty modifier below a combination.
pub proof fn lemma_then_normal(a: ModifierInternal, b: ModifierInternal)
    requires
        is_normal(a),
        is_normal(b),
    ensures
        is_normal(then_spec(a, b)),
{
}

/// In a normal, non-empty modifier the leaves are exactly its elements.
pub proof fn lemma_normal_leaves(m: ModifierInternal)
    requires
        is_normal(m),
        !(m is Unit),
    ensures
        leaves(m) == elements(m),
    decreases m,
{
    match m {
        ModifierInternal::Combined { left, right } => {
            lemma_normal_leaves(*left);
            lemma_normal_leaves(*right);
        },
        _ => {},
    }
}

/// Combining two non-empty modifiers and flattening gives the
/// concatenation of their flattenings.
pub proof fn lemma_then_leaves(a: ModifierInternal, b: ModifierInternal)
    requires
        !(a is Unit),
        !(b is Unit),
    ensures
        leaves(then_spec(a, b)) == leaves(a) + leaves(b),
{
}

/// Flattening does not depend on how `then` groups its operands, empty
/// modifiers included.
pub proof fn lemma_then_flatten_associative(a: ModifierInternal, b: ModifierInternal, c: ModifierInternal)
    ensures
        leaves(then_spec(then_spec(a, b), c)) == leaves(then_spec(a, then_spec(b, c))),
{
    if !(a is Unit) && !(b is Unit) && !(c is Unit) {
        let ab = then_spec(a, b);
        let bc = then_spec(b, c);
        assert(leaves(then_spec(ab, c)) == leaves(ab) + leaves(c));
        assert(leaves(then_spec(a, bc)) == leaves(a) + leaves(bc));
        assert(leaves(a) + leaves(b) + leaves(c) =~= leaves(a) + (leaves(b) + leaves(c)));
    }
}

} // verus!
