//! The mid-level intermediate representation (MIR) as the optimizer's
//! utilities see it: a body is a sequence of expressions, each defining an
//! ID, and expressions refer to other expressions by their IDs.
//!
//! The utilities collect the IDs that a function defines and replace the IDs
//! that expressions refer to or define.

use crate::builtin_functions::BuiltinFunction;
use num_bigint::BigInt;
use rustc_hash::{FxBuildHasher, FxHashMap, FxHashSet};
use vstd::prelude::*;

verus! {

#[verifier::external_type_specification]
#[verifier::external_body]
pub struct ExBigInt(BigInt);

#[verifier::external_type_specification]
#[verifier::external_body]
pub struct ExFxBuildHasher(FxBuildHasher);

/// The ID of a MIR expression.
#[derive(Clone, Copy, Debug, PartialEq, Eq, Structural, Hash, PartialOrd, Ord)]
pub struct Id(pub usize);

/// An expression. Apart from IDs, what an expression holds is kept as it is.
#[derive(Debug)]
pub enum Expression {
    Int(BigInt),
    Text(String),
    Builtin(BuiltinFunction),
    /// The ID of the HIR expression this stands for, in its textual form.
    HirId(String),
    Tag { symbol: String, value: Option<Id> },
    List(Vec<Id>),
    Struct(Vec<(Id, Id)>),
    Reference(Id),
    Function {
        /// The IDs of the HIR expressions this function stems from, in their
        /// textual form.
        original_hirs: Vec<String>,
        parameters: Vec<Id>,
        responsible_parameter: Id,
        body: Body,
    },
    Parameter,
    Call { function: Id, arguments: Vec<Id>, responsible: Id },
    UseModule {
        /// The module doing the import, in its textual form.
        current_module: String,
        relative_path: Id,
        responsible: Id,
    },
    Panic { reason: Id, responsible: Id },
    TraceCallStarts { hir_call: Id, function: Id, arguments: Vec<Id>, responsible: Id },
    TraceCallEnds { return_value: Id },
    TraceExpressionEvaluated { hir_expression: Id, value: Id },
    TraceFoundFuzzableFunction { hir_definition: Id, function: Id },
}

/// A sequence of expressions, each defining the ID it comes with.
#[derive(Debug)]
pub struct Body {
    pub expressions: Vec<(Id, Expression)>,
}

impl Body {
    pub fn new() -> (res: Body)
        ensures
            res.expressions@.len() == 0,
    {
        Body { expressions: Vec::new() }
    }

    /// Appends an expression that defines the ID.
    pub fn push(&mut self, id: Id, expression: Expression)
        ensures
            final(self).expressions@ == old(self).expressions@.push((id, expression)),
    {
        self.expressions.push((id, expression));
    }
}

// ----------------------------------------------------------------------------
// Defined IDs.

/// The IDs that an expression defines, in the order they are defined in: a
/// function defines its parameters, its responsible parameter, and what its
/// body defines; other expressions define nothing.
pub open spec fn expression_defined_ids(e: Expression) -> Seq<Id>
    decreases e,
{
    match e {
        Expression::Function { parameters, responsible_parameter, body, .. } => parameters@
            + seq![responsible_parameter] + entries_defined_ids(body.expressions@),
        _ => Seq::empty(),
    }
}

/// The IDs that the entries of a body define: each entry's ID, followed by what
/// its expression defines.
pub open spec fn entries_defined_ids(s: Seq<(Id, Expression)>) -> Seq<Id>
    decreases s,
{
    if s.len() == 0 {
        Seq::empty()
    } else {
        entries_defined_ids(s.subrange(0, s.len() - 1)) + seq![s[s.len() - 1].0]
            + expression_defined_ids(s[s.len() - 1].1)
    }
}

fn push_all(defined: &mut Vec<Id>, ids: &Vec<Id>)
    ensures
        final(defined)@ == old(defined)@ + ids@,
{
    let mut i: usize = 0;
    while i < ids.len()
        invariant
            i <= ids.len(),
            defined@ == old(defined)@ + ids@.take(i as int),
        decreases ids.len() - i,
    {
        defined.push(ids[i]);
        i = i + 1;
        proof {
            assert(defined@ =~= old(defined)@ + ids@.take(i as int));
        }
    }
    proof {
        assert(ids@.take(ids.len() as int) =~= ids@);
    }
}

impl Expression {
    /// All IDs defined inside this expression. For all expressions except
    /// functions, this returns an empty vector. The IDs are returned in the
    /// order that they are defined in.
    pub fn defined_ids(&self) -> (res: Vec<Id>)
        ensures
            res@ == expression_defined_ids(*self),
    {
        let mut defined: Vec<Id> = Vec::new();
        self.collect_defined_ids(&mut defined);
        proof {
            assert(defined@ =~= expression_defined_ids(*self));
        }
        defined
    }

    fn collect_defined_ids(&self, defined: &mut Vec<Id>)
        ensures
            final(defined)@ == old(defined)@ + expression_defined_ids(*self),
        decreases self,
    {
        if let Expression::Function { parameters, responsible_parameter, body, .. } = self {
            push_all(defined, parameters);
            defined.push(*responsible_parameter);
            collect_entries_defined_ids(&body.expressions, defined);
            proof {
                assert(final(defined)@ =~= old(defined)@ + expression_defined_ids(*self));
            }
        } else {
            proof {
                assert(defined@ =~= old(defined)@ + expression_defined_ids(*self));
            }
        }
    }
}

fn collect_entries_defined_ids(entries: &Vec<(Id, Expression)>, defined: &mut Vec<Id>)
    ensures
        final(defined)@ == old(defined)@ + entries_defined_ids(entries@),
    decreases entries,
{
    let mut i: usize = 0;
    proof {
        assert(entries@.subrange(0, 0) =~= Seq::<(Id, Expression)>::empty());
        assert(defined@ =~= old(defined)@ + entries_defined_ids(entries@.subrange(0, 0)));
    }
    while i < entries.len()
        invariant
            i <= entries.len(),
            defined@ == old(defined)@ + entries_defined_ids(entries@.subrange(0, i as int)),
        decreases entries.len() - i,
    {
        let ghost before = defined@;
        defined.push(entries[i].0);
        entries[i].1.collect_defined_ids(defined);
        proof {
            let t = entries@.subrange(0, i + 1);
            assert(t.subrange(0, t.len() - 1) =~= entries@.subrange(0, i as int));
            assert(defined@ =~= old(defined)@ + entries_defined_ids(entries@.subrange(0, i + 1)));
        }
        i = i + 1;
    }
    proof {
        assert(entries@.subrange(0, entries.len() as int) =~= entries@);
    }
}

impl Body {
    /// All IDs defined in this body, in the order they are defined in.
    pub fn defined_ids(&self) -> (res: Vec<Id>)
        ensures
            res@ == entries_defined_ids(self.expressions@),
    {
        let mut defined: Vec<Id> = Vec::new();
        collect_entries_defined_ids(&self.expressions, &mut defined);
        proof {
            assert(defined@ =~= entries_defined_ids(self.expressions@));
        }
        defined
    }
}

// ----------------------------------------------------------------------------
// Replacing IDs.

/// The two sequences of IDs are related element by element.
pub open spec fn ids_related(a: Seq<Id>, b: Seq<Id>, r: spec_fn(Id, Id) -> bool) -> bool {
    a.len() == b.len() && forall|i: int| 0 <= i < a.len() ==> r(a[i], b[i])
}

/// `new` is `old` with each ID that `old` refers to related by `r` to the ID
/// in its place, and everything else unchanged. The IDs that a function
/// defines (its parameters, its responsible parameter and its body's
/// entries) stay.
pub open spec fn references_replaced(old: Expression, new: Expression, r: spec_fn(Id, Id) -> bool) -> bool
    decreases old,
{
    match (old, new) {
        (Expression::Int(a), Expression::Int(b)) => a == b,
        (Expression::Text(a), Expression::Text(b)) => a == b,
        (Expression::Builtin(a), Expression::Builtin(b)) => a == b,
        (Expression::HirId(a), Expression::HirId(b)) => a == b,
        (
            Expression::Tag { symbol: s1, value: v1 },
            Expression::Tag { symbol: s2, value: v2 },
        ) => s1 == s2 && match (v1, v2) {
            (Some(x), Some(y)) => r(x, y),
            (None, None) => true,
            _ => false,
        },
        (Expression::List(a), Expression::List(b)) => ids_related(a@, b@, r),
        (Expression::Struct(a), Expression::Struct(b)) => a@.len() == b@.len() && forall|i: int|
            0 <= i < a@.len() ==> r(a@[i].0, b@[i].0) && r(a@[i].1, b@[i].1),
        (Expression::Reference(a), Expression::Reference(b)) => r(a, b),
        (
            Expression::Function {
                original_hirs: h1,
                parameters: p1,
                responsible_parameter: rp1,
                body: b1,
            },
            Expression::Function {
                original_hirs: h2,
                parameters: p2,
                responsible_parameter: rp2,
                body: b2,
            },
        ) => h1 == h2 && p2@ == p1@ && rp2 == rp1 && entries_references_replaced(
            b1.expressions@,
            b2.expressions@,
            r,
        ),
        (Expression::Parameter, Expression::Parameter) => true,
        (
            Expression::Call { function: f1, arguments: a1, responsible: r1 },
            Expression::Call { function: f2, arguments: a2, responsible: r2 },
        ) => r(f1, f2) && ids_related(a1@, a2@, r) && r(r1, r2),
        (
            Expression::UseModule { current_module: m1, relative_path: p1, responsible: r1 },
            Expression::UseModule { current_module: m2, relative_path: p2, responsible: r2 },
        ) => m1 == m2 && r(p1, p2) && r(r1, r2),
        (
            Expression::Panic { reason: a1, responsible: r1 },
            Expression::Panic { reason: a2, responsible: r2 },
        ) => r(a1, a2) && r(r1, r2),
        (
            Expression::TraceCallStarts {
                hir_call: h1,
                function: f1,
                arguments: a1,
                responsible: r1,
            },
            Expression::TraceCallStarts {
                hir_call: h2,
                function: f2,
                arguments: a2,
                responsible: r2,
            },
        ) => r(h1, h2) && r(f1, f2) && ids_related(a1@, a2@, r) && r(r1, r2),
        (
            Expression::TraceCallEnds { return_value: v1 },
            Expression::TraceCallEnds { return_value: v2 },
        ) => r(v1, v2),
        (
            Expression::TraceExpressionEvaluated { hir_expression: h1, value: v1 },
            Expression::TraceExpressionEvaluated { hir_expression: h2, value: v2 },
        ) => r(h1, h2) && r(v1, v2),
        (
            Expression::TraceFoundFuzzableFunction { hir_definition: h1, function: f1 },
            Expression::TraceFoundFuzzableFunction { hir_definition: h2, function: f2 },
        ) => r(h1, h2) && r(f1, f2),
        _ => false,
    }
}

/// The entries keep their IDs, and their expressions have their references
/// replaced.
pub open spec fn entries_references_replaced(
    old: Seq<(Id, Expression)>,
    new: Seq<(Id, Expression)>,
    r: spec_fn(Id, Id) -> bool,
) -> bool
    decreases old,
{
    old.len() == new.len() && (old.len() > 0 ==> entries_references_replaced(
        old.subrange(0, old.len() - 1),
        new.subrange(0, new.len() - 1),
        r,
    ) && old[old.len() - 1].0 == new[new.len() - 1].0 && references_replaced(
        old[old.len() - 1].1,
        new[new.len() - 1].1,
        r,
    ))
}

/// `new` is `old` with every ID, defined or referred to, related by `r` to the
/// ID in its place.
pub open spec fn ids_replaced(old: Expression, new: Expression, r: spec_fn(Id, Id) -> bool) -> bool
    decreases old,
{
    match (old, new) {
        (
            Expression::Function {
                original_hirs: h1,
                parameters: p1,
                responsible_parameter: rp1,
                body: b1,
            },
            Expression::Function {
                original_hirs: h2,
                parameters: p2,
                responsible_parameter: rp2,
                body: b2,
            },
        ) => h1 == h2 && ids_related(p1@, p2@, r) && r(rp1, rp2) && entries_ids_replaced(
            b1.expressions@,
            b2.expressions@,
            r,
        ),
        (Expression::Function { .. }, _) => false,
        _ => references_replaced(old, new, r),
    }
}

/// The entries have their IDs and the IDs inside their expressions replaced.
pub open spec fn entries_ids_replaced(
    old: Seq<(Id, Expression)>,
    new: Seq<(Id, Expression)>,
    r: spec_fn(Id, Id) -> bool,
) -> bool
    decreases old,
{
    old.len() == new.len() && (old.len() > 0 ==> entries_ids_replaced(
        old.subrange(0, old.len() - 1),
        new.subrange(0, new.len() - 1),
        r,
    ) && r(old[old.len() - 1].0, new[new.len() - 1].0) && ids_replaced(
        old[old.len() - 1].1,
        new[new.len() - 1].1,
        r,
    ))
}

/// What the replacer may return for an ID.
pub open spec fn replaces<F: Fn(Id) -> Id>(replacer: F) -> spec_fn(Id, Id) -> bool {
    |a: Id, b: Id| replacer.ensures((a,), b)
}

/// Replaces each ID in the vector.
fn replace_all<F: Fn(Id) -> Id>(ids: &mut Vec<Id>, replacer: &F)
    requires
        forall|id: Id| replacer.requires((id,)),
    ensures
        ids_related(old(ids)@, final(ids)@, replaces(*replacer)),
{
    let ghost initial = ids@;
    let mut i: usize = 0;
    while i < ids.len()
        invariant
            forall|id: Id| replacer.requires((id,)),
            i <= ids.len(),
            ids@.len() == initial.len(),
            forall|j: int| 0 <= j < i ==> replacer.ensures((initial[j],), ids@[j]),
            forall|j: int| i <= j < ids@.len() ==> ids@[j] == initial[j],
        decreases ids.len() - i,
    {
        let new_id = replacer(ids[i]);
        ids.set(i, new_id);
        i = i + 1;
    }
}

/// Replaces an ID.
fn replace_one<F: Fn(Id) -> Id>(id: &mut Id, replacer: &F)
    requires
        forall|id: Id| replacer.requires((id,)),
    ensures
        replacer.ensures((*old(id),), *final(id)),
{
    *id = replacer(*id);
}

impl Expression {
    /// Replaces all referenced IDs. Does *not* replace IDs that are defined in
    /// this expression.
    pub fn replace_id_references<F: Fn(Id) -> Id>(&mut self, replacer: &F)
        requires
            forall|id: Id| replacer.requires((id,)),
        ensures
            references_replaced(*old(self), *final(self), replaces(*replacer)),
        decreases *old(self),
    {
        match self {
            Expression::Int(_) | Expression::Text(_) | Expression::Builtin(_) | Expression::HirId(
                _,
            ) => {},
            Expression::Tag { value, .. } => {
                if let Some(value) = value {
                    replace_one(value, replacer);
                }
            },
            Expression::List(items) => {
                replace_all(items, replacer);
            },
            Expression::Struct(fields) => {
                let ghost initial = fields@;
                let mut i: usize = 0;
                while i < fields.len()
                    invariant
                        forall|id: Id| replacer.requires((id,)),
                        i <= fields.len(),
                        fields@.len() == initial.len(),
                        forall|j: int|
                            0 <= j < i ==> replacer.ensures((initial[j].0,), fields@[j].0)
                                && replacer.ensures((initial[j].1,), fields@[j].1),
                        forall|j: int| i <= j < fields@.len() ==> fields@[j] == initial[j],
                    decreases fields.len() - i,
                {
                    let (key, value) = fields[i];
                    let new_key = replacer(key);
                    let new_value = replacer(value);
                    fields.set(i, (new_key, new_value));
                    i = i + 1;
                }
            },
            Expression::Reference(reference) => replace_one(reference, replacer),
            Expression::Function { body, .. } => {
                replace_entries_references(&mut body.expressions, replacer);
            },
            Expression::Parameter => {},
            Expression::Call { function, arguments, responsible } => {
                replace_one(function, replacer);
                replace_all(arguments, replacer);
                replace_one(responsible, replacer);
            },
            Expression::UseModule { relative_path, responsible, .. } => {
                replace_one(relative_path, replacer);
                replace_one(responsible, replacer);
            },
            Expression::Panic { reason, responsible } => {
                replace_one(reason, replacer);
                replace_one(responsible, replacer);
            },
            Expression::TraceCallStarts { hir_call, function, arguments, responsible } => {
                replace_one(hir_call, replacer);
                replace_one(function, replacer);
                replace_all(arguments, replacer);
                replace_one(responsible, replacer);
            },
            Expression::TraceCallEnds { return_value } => {
                replace_one(return_value, replacer);
            },
            Expression::TraceExpressionEvaluated { hir_expression, value } => {
                replace_one(hir_expression, replacer);
                replace_one(value, replacer);
            },
            Expression::TraceFoundFuzzableFunction { hir_definition, function } => {
                replace_one(hir_definition, replacer);
                replace_one(function, replacer);
            },
        }
    }

    /// Replaces all IDs in this expression using the replacer, including
    /// definitions.
    pub fn replace_ids<F: Fn(Id) -> Id>(&mut self, replacer: &F)
        requires
            forall|id: Id| replacer.requires((id,)),
        ensures
            ids_replaced(*old(self), *final(self), replaces(*replacer)),
        decreases *old(self),
    {
        match self {
            Expression::Function { parameters, responsible_parameter, body, .. } => {
                replace_all(parameters, replacer);
                replace_one(responsible_parameter, replacer);
                replace_entries_ids(&mut body.expressions, replacer);
            },
            // All other expressions don't define IDs and instead only contain
            // references. Thus, the function above does the job.
            _ => self.replace_id_references(replacer),
        }
    }
}

fn replace_entries_references<F: Fn(Id) -> Id>(entries: &mut Vec<(Id, Expression)>, replacer: &F)
    requires
        forall|id: Id| replacer.requires((id,)),
    ensures
        entries_references_replaced(old(entries)@, final(entries)@, replaces(*replacer)),
    decreases *old(entries),
{
    let ghost initial = entries@;
    let mut i: usize = 0;
    while i < entries.len()
        invariant
            forall|id: Id| replacer.requires((id,)),
            i <= entries.len(),
            entries@.len() == initial.len(),
            initial == old(entries)@,
            entries_references_replaced(
                initial.subrange(0, i as int),
                entries@.subrange(0, i as int),
                replaces(*replacer),
            ),
            forall|j: int| i <= j < entries@.len() ==> entries@[j] == initial[j],
        decreases entries.len() - i,
    {
        let ghost before = entries@;
        proof {
            assert(initial == old(entries)@);
            assert(decreases_to!(*old(entries) => old(entries)@));
            assert(decreases_to!(old(entries)@ => old(entries)@[i as int]));
            assert(decreases_to!(old(entries)@[i as int] => old(entries)@[i as int].1));
            assert(decreases_to!(*old(entries) => old(entries)@[i as int].1));
        }
        let entry = &mut entries[i];
        entry.1.replace_id_references(replacer);
        proof {
            let o = initial.subrange(0, i + 1);
            let n = entries@.subrange(0, i + 1);
            assert(o.subrange(0, o.len() - 1) =~= initial.subrange(0, i as int));
            assert(n.subrange(0, n.len() - 1) =~= before.subrange(0, i as int));
            assert(before.subrange(0, i as int) =~= entries@.subrange(0, i as int));
        }
        i = i + 1;
    }
    proof {
        assert(initial.subrange(0, initial.len() as int) =~= initial);
        assert(entries@.subrange(0, entries@.len() as int) =~= entries@);
    }
}

fn replace_entries_ids<F: Fn(Id) -> Id>(entries: &mut Vec<(Id, Expression)>, replacer: &F)
    requires
        forall|id: Id| replacer.requires((id,)),
    ensures
        entries_ids_replaced(old(entries)@, final(entries)@, replaces(*replacer)),
    decreases *old(entries),
{
    let ghost initial = entries@;
    let mut i: usize = 0;
    while i < entries.len()
        invariant
            forall|id: Id| replacer.requires((id,)),
            i <= entries.len(),
            entries@.len() == initial.len(),
            initial == old(entries)@,
            entries_ids_replaced(
                initial.subrange(0, i as int),
                entries@.subrange(0, i as int),
                replaces(*replacer),
            ),
            forall|j: int| i <= j < entries@.len() ==> entries@[j] == initial[j],
        decreases entries.len() - i,
    {
        let ghost before = entries@;
        proof {
            assert(initial == old(entries)@);
            assert(decreases_to!(*old(entries) => old(entries)@));
            assert(decreases_to!(old(entries)@ => old(entries)@[i as int]));
            assert(decreases_to!(old(entries)@[i as int] => old(entries)@[i as int].1));
            assert(decreases_to!(*old(entries) => old(entries)@[i as int].1));
        }
        let entry = &mut entries[i];
        replace_one(&mut entry.0, replacer);
        entry.1.replace_ids(replacer);
        proof {
            let o = initial.subrange(0, i + 1);
            let n = entries@.subrange(0, i + 1);
            assert(o.subrange(0, o.len() - 1) =~= initial.subrange(0, i as int));
            assert(n.subrange(0, n.len() - 1) =~= before.subrange(0, i as int));
            assert(before.subrange(0, i as int) =~= entries@.subrange(0, i as int));
        }
        i = i + 1;
    }
    proof {
        assert(initial.subrange(0, initial.len() as int) =~= initial);
        assert(entries@.subrange(0, entries@.len() as int) =~= entries@);
    }
}

impl Body {
    /// Replaces the IDs that the body's expressions refer to; the IDs that
    /// the entries define stay.
    pub fn replace_id_references<F: Fn(Id) -> Id>(&mut self, replacer: &F)
        requires
            forall|id: Id| replacer.requires((id,)),
        ensures
            entries_references_replaced(
                old(self).expressions@,
                final(self).expressions@,
                replaces(*replacer),
            ),
    {
        replace_entries_references(&mut self.expressions, replacer);
    }

    /// Replaces all IDs in the body, including those that its entries define.
    pub fn replace_ids<F: Fn(Id) -> Id>(&mut self, replacer: &F)
        requires
            forall|id: Id| replacer.requires((id,)),
        ensures
            entries_ids_replaced(old(self).expressions@, final(self).expressions@, replaces(*replacer)),
    {
        replace_entries_ids(&mut self.expressions, replacer);
    }
}

// ----------------------------------------------------------------------------
// Laws.

/// Related sequences stay related when extended by related sequences.
pub proof fn lemma_ids_related_add(
    a1: Seq<Id>,
    b1: Seq<Id>,
    a2: Seq<Id>,
    b2: Seq<Id>,
    r: spec_fn(Id, Id) -> bool,
)
    requires
        ids_related(a1, b1, r),
        ids_related(a2, b2, r),
    ensures
        ids_related(a1 + a2, b1 + b2, r),
{
    assert forall|i: int| 0 <= i < (a1 + a2).len() implies r((a1 + a2)[i], (b1 + b2)[i]) by {
        if i < a1.len() {
            assert((a1 + a2)[i] == a1[i] && (b1 + b2)[i] == b1[i]);
        } else {
            assert((a1 + a2)[i] == a2[i - a1.len()] && (b1 + b2)[i] == b2[i - b1.len()]);
        }
    }
}

/// Replacing all IDs of an expression replaces the IDs it defines one by one:
/// the IDs the new expression defines are those the old one defined, each
/// related by the replacement to the one in its place.
pub proof fn lemma_replace_ids_defined(old: Expression, new: Expression, r: spec_fn(Id, Id) -> bool)
    requires
        ids_replaced(old, new, r),
    ensures
        ids_related(expression_defined_ids(old), expression_defined_ids(new), r),
    decreases old,
{
    match (old, new) {
        (
            Expression::Function {
                parameters: p1,
                responsible_parameter: rp1,
                body: b1,
                ..
            },
            Expression::Function {
                parameters: p2,
                responsible_parameter: rp2,
                body: b2,
                ..
            },
        ) => {
            lemma_entries_replace_ids_defined(b1.expressions@, b2.expressions@, r);
            lemma_ids_related_add(p1@, p2@, seq![rp1], seq![rp2], r);
            lemma_ids_related_add(
                p1@ + seq![rp1],
                p2@ + seq![rp2],
                entries_defined_ids(b1.expressions@),
                entries_defined_ids(b2.expressions@),
                r,
            );
        },
        _ => {
            assert(expression_defined_ids(old) =~= Seq::<Id>::empty());
            assert(expression_defined_ids(new) =~= Seq::<Id>::empty());
        },
    }
}

/// Replacing all IDs of a body's entries replaces the IDs they define one by
/// one.
pub proof fn lemma_entries_replace_ids_defined(
    old: Seq<(Id, Expression)>,
    new: Seq<(Id, Expression)>,
    r: spec_fn(Id, Id) -> bool,
)
    requires
        entries_ids_replaced(old, new, r),
    ensures
        ids_related(entries_defined_ids(old), entries_defined_ids(new), r),
    decreases old,
{
    if old.len() == 0 {
        assert(entries_defined_ids(old) =~= Seq::<Id>::empty());
        assert(entries_defined_ids(new) =~= Seq::<Id>::empty());
    } else {
        let o = old.subrange(0, old.len() - 1);
        let n = new.subrange(0, new.len() - 1);
        lemma_entries_replace_ids_defined(o, n, r);
        lemma_replace_ids_defined(old[old.len() - 1].1, new[new.len() - 1].1, r);
        lemma_ids_related_add(
            entries_defined_ids(o),
            entries_defined_ids(n),
            seq![old[old.len() - 1].0],
            seq![new[new.len() - 1].0],
            r,
        );
        lemma_ids_related_add(
            entries_defined_ids(o) + seq![old[old.len() - 1].0],
            entries_defined_ids(n) + seq![new[new.len() - 1].0],
            expression_defined_ids(old[old.len() - 1].1),
            expression_defined_ids(new[new.len() - 1].1),
            r,
        );
    }
}

/// The relation that relates each ID to itself alone.
pub open spec fn same_id() -> spec_fn(Id, Id) -> bool {
    |a: Id, b: Id| a == b
}

/// The expressions are alike: equal field by field, their vectors item by
/// item.
pub open spec fn alike(a: Expression, b: Expression) -> bool {
    references_replaced(a, b, same_id())
}

/// The entries are alike: the same IDs, with alike expressions.
pub open spec fn entries_alike(a: Seq<(Id, Expression)>, b: Seq<(Id, Expression)>) -> bool {
    entries_references_replaced(a, b, same_id())
}

/// Replacing all IDs of a body's entries keeps their number and order: the
/// entry at each place has its ID related to the old one's and its
/// expression's IDs replaced.
pub proof fn lemma_entries_ids_replaced_bindings(
    old: Seq<(Id, Expression)>,
    new: Seq<(Id, Expression)>,
    r: spec_fn(Id, Id) -> bool,
)
    requires
        entries_ids_replaced(old, new, r),
    ensures
        new.len() == old.len(),
        forall|i: int|
            #![trigger new[i]]
            0 <= i < old.len() ==> r(old[i].0, new[i].0) && ids_replaced(old[i].1, new[i].1, r),
    decreases old.len(),
{
    if old.len() > 0 {
        let o = old.subrange(0, old.len() - 1);
        let n = new.subrange(0, new.len() - 1);
        lemma_entries_ids_replaced_bindings(o, n, r);
        assert forall|i: int| #![trigger new[i]]
            0 <= i < old.len() implies r(old[i].0, new[i].0) && ids_replaced(old[i].1, new[i].1, r) by {
            if i < old.len() - 1 {
                assert(o[i] == old[i] && n[i] == new[i]);
                assert(r(o[i].0, n[i].0) && ids_replaced(o[i].1, n[i].1, r));
            } else {
                assert(r(old[old.len() - 1].0, new[new.len() - 1].0));
            }
        }
    }
}

/// The relation relates each ID to itself alone, if to anything.
pub open spec fn keeps_ids(r: spec_fn(Id, Id) -> bool) -> bool {
    forall|a: Id, b: Id| #[trigger] r(a, b) ==> a == b
}

/// Replacing the references of an expression by a relation that keeps every
/// ID leaves it as it was.
pub proof fn lemma_replace_references_identity(
    old: Expression,
    new: Expression,
    r: spec_fn(Id, Id) -> bool,
)
    requires
        keeps_ids(r),
        references_replaced(old, new, r),
    ensures
        alike(old, new),
    decreases old,
{
    match (old, new) {
        (Expression::Struct(a), Expression::Struct(b)) => {
            assert forall|i: int| 0 <= i < a@.len() implies same_id()(a@[i].0, b@[i].0) && same_id()(
                a@[i].1,
                b@[i].1,
            ) by {
                assert(r(a@[i].0, b@[i].0) && r(a@[i].1, b@[i].1));
            }
        },
        (Expression::Function { body: b1, .. }, Expression::Function { body: b2, .. }) => {
            lemma_entries_replace_references_identity(b1.expressions@, b2.expressions@, r);
        },
        (Expression::Tag { value: v1, .. }, Expression::Tag { value: v2, .. }) => {
            if let (Some(x), Some(y)) = (v1, v2) {
                assert(r(x, y));
            }
        },
        _ => {
            assert forall|a: Seq<Id>, b: Seq<Id>| #[trigger] ids_related(a, b, r) implies ids_related(
                a,
                b,
                same_id(),
            ) by {
                assert forall|i: int| 0 <= i < a.len() implies same_id()(a[i], b[i]) by {
                    assert(r(a[i], b[i]));
                }
            }
        },
    }
}

/// Replacing the references of a body's entries by a relation that keeps
/// every ID leaves them as they were.
pub proof fn lemma_entries_replace_references_identity(
    old: Seq<(Id, Expression)>,
    new: Seq<(Id, Expression)>,
    r: spec_fn(Id, Id) -> bool,
)
    requires
        keeps_ids(r),
        entries_references_replaced(old, new, r),
    ensures
        entries_alike(old, new),
    decreases old,
{
    if old.len() > 0 {
        lemma_entries_replace_references_identity(
            old.subrange(0, old.len() - 1),
            new.subrange(0, new.len() - 1),
            r,
        );
        lemma_replace_references_identity(old[old.len() - 1].1, new[new.len() - 1].1, r);
    }
}

/// Replacing every ID of an expression by a relation that keeps every ID
/// (such as what a replacer that returns its argument may give) leaves the
/// expression as it was.
pub proof fn lemma_replace_ids_identity(old: Expression, new: Expression, r: spec_fn(Id, Id) -> bool)
    requires
        keeps_ids(r),
        ids_replaced(old, new, r),
    ensures
        alike(old, new),
    decreases old,
{
    match (old, new) {
        (
            Expression::Function { parameters: p1, responsible_parameter: rp1, body: b1, .. },
            Expression::Function { parameters: p2, responsible_parameter: rp2, body: b2, .. },
        ) => {
            assert forall|i: int| 0 <= i < p1@.len() implies p2@[i] == p1@[i] by {
                assert(r(p1@[i], p2@[i]));
            }
            assert(p2@ =~= p1@);
            assert(r(rp1, rp2));
            lemma_entries_replace_ids_identity(b1.expressions@, b2.expressions@, r);
        },
        _ => {
            lemma_replace_references_identity(old, new, r);
        },
    }
}

/// Replacing every ID of a body's entries by a relation that keeps every ID
/// leaves them as they were: the same IDs, in the same order, with alike
/// expressions.
pub proof fn lemma_entries_replace_ids_identity(
    old: Seq<(Id, Expression)>,
    new: Seq<(Id, Expression)>,
    r: spec_fn(Id, Id) -> bool,
)
    requires
        keeps_ids(r),
        entries_ids_replaced(old, new, r),
    ensures
        entries_alike(old, new),
    decreases old,
{
    if old.len() > 0 {
        lemma_entries_replace_ids_identity(
            old.subrange(0, old.len() - 1),
            new.subrange(0, new.len() - 1),
            r,
        );
        assert(r(old[old.len() - 1].0, new[new.len() - 1].0));
        lemma_replace_ids_identity(old[old.len() - 1].1, new[new.len() - 1].1, r);
    }
}

// ----------------------------------------------------------------------------
// Reference counts.

/// The IDs that an expression refers to, in order and with repetitions;
/// inside a function, references to its own definitions count too.
pub open spec fn expression_references(e: Expression) -> Seq<Id>
    decreases e,
{
    match e {
        Expression::Tag { value, .. } => match value {
            Some(v) => seq![v],
            None => Seq::empty(),
        },
        Expression::List(items) => items@,
        Expression::Struct(fields) => field_ids(fields@),
        Expression::Reference(r) => seq![r],
        Expression::Function { body, .. } => entries_references(body.expressions@),
        Expression::Call { function, arguments, responsible } => seq![function] + arguments@
            + seq![responsible],
        Expression::UseModule { relative_path, responsible, .. } => seq![relative_path, responsible],
        Expression::Panic { reason, responsible } => seq![reason, responsible],
        Expression::TraceCallStarts { hir_call, function, arguments, responsible } => seq![
            hir_call,
            function,
        ] + arguments@ + seq![responsible],
        Expression::TraceCallEnds { return_value } => seq![return_value],
        Expression::TraceExpressionEvaluated { hir_expression, value } => seq![
            hir_expression,
            value,
        ],
        Expression::TraceFoundFuzzableFunction { hir_definition, function } => seq![
            hir_definition,
            function,
        ],
        _ => Seq::empty(),
    }
}

/// The keys and values of a struct's fields, one field after another.
pub open spec fn field_ids(fields: Seq<(Id, Id)>) -> Seq<Id>
    decreases fields.len(),
{
    if fields.len() == 0 {
        Seq::empty()
    } else {
        field_ids(fields.drop_last()) + seq![fields.last().0, fields.last().1]
    }
}

/// The references of the entries' expressions, one entry after another.
pub open spec fn entries_references(s: Seq<(Id, Expression)>) -> Seq<Id>
    decreases s,
{
    if s.len() == 0 {
        Seq::empty()
    } else {
        entries_references(s.subrange(0, s.len() - 1)) + expression_references(s[s.len() - 1].1)
    }
}

/// The counts with one more occurrence of the ID.
pub open spec fn count_one(counts: Map<usize, usize>, id: Id) -> Map<usize, usize> {
    counts.insert(
        id.0,
        if counts.contains_key(id.0) {
            (counts[id.0] + 1) as usize
        } else {
            1
        },
    )
}

/// The counts with every occurrence of the IDs added.
pub open spec fn counted(counts: Map<usize, usize>, ids: Seq<Id>) -> Map<usize, usize>
    decreases ids.len(),
{
    if ids.len() == 0 {
        counts
    } else {
        count_one(counted(counts, ids.drop_last()), ids.last())
    }
}

/// No count exceeds the bound.
pub open spec fn counts_at_most(counts: Map<usize, usize>, bound: int) -> bool {
    forall|k: usize| counts.contains_key(k) ==> counts[k] <= bound
}

pub proof fn lemma_counted_add(counts: Map<usize, usize>, a: Seq<Id>, b: Seq<Id>)
    ensures
        counted(counts, a + b) == counted(counted(counts, a), b),
    decreases b.len(),
{
    if b.len() == 0 {
        assert(a + b =~= a);
    } else {
        assert((a + b).drop_last() =~= a + b.drop_last());
        lemma_counted_add(counts, a, b.drop_last());
    }
}

pub proof fn lemma_counted_bound(counts: Map<usize, usize>, ids: Seq<Id>, bound: int)
    requires
        counts_at_most(counts, bound),
        0 <= bound,
        bound + ids.len() <= usize::MAX,
    ensures
        counts_at_most(counted(counts, ids), bound + ids.len()),
    decreases ids.len(),
{
    if ids.len() > 0 {
        lemma_counted_bound(counts, ids.drop_last(), bound);
        let m = counted(counts, ids.drop_last());
        assert forall|k: usize| counted(counts, ids).contains_key(k) implies counted(counts, ids)[k]
            <= bound + ids.len() by {
            if k == ids.last().0 && m.contains_key(k) {
                assert(m[k] + 1 <= usize::MAX);
            }
        }
    }
}

/// The numbers of the IDs.
pub open spec fn id_numbers(ids: Seq<Id>) -> Set<usize>
    decreases ids.len(),
{
    if ids.len() == 0 {
        Set::empty()
    } else {
        id_numbers(ids.drop_last()).insert(ids.last().0)
    }
}

/// What an ID map of rustc-hash holds, keyed by the IDs' numbers.
pub uninterp spec fn id_counts(m: FxHashMap<Id, usize>) -> Map<usize, usize>;

/// What an ID set of rustc-hash holds, as the IDs' numbers.
pub uninterp spec fn id_set(s: FxHashSet<Id>) -> Set<usize>;

/// Creates an empty `FxHashMap` with `Default::default`.
#[verifier::external_body]
fn empty_counts() -> (res: FxHashMap<Id, usize>)
    ensures
        id_counts(res).dom().is_empty(),
{
    FxHashMap::default()
}

/// Calls `HashMap::get`, which returns the value for the key if the map has
/// one; IDs are equal and hash alike exactly if their numbers are equal.
#[verifier::external_body]
fn count_of(counts: &FxHashMap<Id, usize>, id: Id) -> (res: Option<usize>)
    ensures
        match res {
            Some(n) => id_counts(*counts).contains_key(id.0) && id_counts(*counts)[id.0] == n,
            None => !id_counts(*counts).contains_key(id.0),
        },
{
    counts.get(&id).copied()
}

/// Calls `HashMap::insert`, after which the map holds the value for the key
/// and is otherwise unchanged.
#[verifier::external_body]
fn set_count(counts: &mut FxHashMap<Id, usize>, id: Id, count: usize)
    ensures
        id_counts(*final(counts)) == id_counts(*old(counts)).insert(id.0, count),
{
    counts.insert(id, count);
}

/// Calls `HashMap::into_keys` and collects the keys into an `FxHashSet`: the
/// set holds exactly the map's keys.
#[verifier::external_body]
fn keys_of(counts: FxHashMap<Id, usize>) -> (res: FxHashSet<Id>)
    ensures
        id_set(res) == id_counts(counts).dom(),
{
    counts.into_keys().collect()
}

/// Calls `HashSet::remove`, after which the set no longer holds the ID and is
/// otherwise unchanged.
#[verifier::external_body]
fn remove_id(ids: &mut FxHashSet<Id>, id: Id)
    ensures
        id_set(*final(ids)) == id_set(*old(ids)).remove(id.0),
{
    ids.remove(&id);
}

/// Counts one more occurrence of the ID.
fn add_reference(counts: &mut FxHashMap<Id, usize>, id: Id)
    requires
        id_counts(*old(counts)).contains_key(id.0) ==> id_counts(*old(counts))[id.0] < usize::MAX,
    ensures
        id_counts(*final(counts)) == count_one(id_counts(*old(counts)), id),
{
    match count_of(counts, id) {
        Some(n) => set_count(counts, id, n + 1),
        None => set_count(counts, id, 1),
    }
}

/// Counts every occurrence of the IDs.
fn add_references(counts: &mut FxHashMap<Id, usize>, ids: &Vec<Id>)
    requires
        counts_at_most(id_counts(*old(counts)), usize::MAX - ids@.len()),
    ensures
        id_counts(*final(counts)) == counted(id_counts(*old(counts)), ids@),
{
    let ghost bound = usize::MAX - ids@.len();
    let mut i: usize = 0;
    while i < ids.len()
        invariant
            i <= ids@.len(),
            bound == usize::MAX - ids@.len(),
            counts_at_most(id_counts(*old(counts)), bound),
            id_counts(*counts) == counted(id_counts(*old(counts)), ids@.take(i as int)),
        decreases ids@.len() - i,
    {
        proof {
            lemma_counted_bound(id_counts(*old(counts)), ids@.take(i as int), bound);
            assert(ids@.take(i + 1).drop_last() =~= ids@.take(i as int));
        }
        add_reference(counts, ids[i]);
        i = i + 1;
    }
    proof {
        assert(ids@.take(ids@.len() as int) =~= ids@);
    }
}

fn push_ids(out: &mut Vec<Id>, ids: &Vec<Id>)
    ensures
        final(out)@ == old(out)@ + ids@,
{
    push_all(out, ids);
}

/// The references of an expression that is not a function.
fn direct_references(e: &Expression) -> (res: Vec<Id>)
    requires
        !(*e is Function),
    ensures
        res@ == expression_references(*e),
{
    let mut ids: Vec<Id> = Vec::new();
    match e {
        Expression::Tag { value, .. } => {
            if let Some(value) = value {
                ids.push(*value);
            }
        },
        Expression::List(items) => push_ids(&mut ids, items),
        Expression::Struct(fields) => {
            let mut i: usize = 0;
            while i < fields.len()
                invariant
                    i <= fields@.len(),
                    ids@ == field_ids(fields@.take(i as int)),
                decreases fields@.len() - i,
            {
                proof {
                    assert(fields@.take(i + 1).drop_last() =~= fields@.take(i as int));
                }
                let (key, value) = fields[i];
                ids.push(key);
                ids.push(value);
                i = i + 1;
                proof {
                    assert(ids@ =~= field_ids(fields@.take(i as int)));
                }
            }
            proof {
                assert(fields@.take(fields@.len() as int) =~= fields@);
            }
        },
        Expression::Reference(reference) => ids.push(*reference),
        Expression::Call { function, arguments, responsible } => {
            ids.push(*function);
            push_ids(&mut ids, arguments);
            ids.push(*responsible);
        },
        Expression::UseModule { relative_path, responsible, .. } => {
            ids.push(*relative_path);
            ids.push(*responsible);
        },
        Expression::Panic { reason, responsible } => {
            ids.push(*reason);
            ids.push(*responsible);
        },
        Expression::TraceCallStarts { hir_call, function, arguments, responsible } => {
            ids.push(*hir_call);
            ids.push(*function);
            push_ids(&mut ids, arguments);
            ids.push(*responsible);
        },
        Expression::TraceCallEnds { return_value } => ids.push(*return_value),
        Expression::TraceExpressionEvaluated { hir_expression, value } => {
            ids.push(*hir_expression);
            ids.push(*value);
        },
        Expression::TraceFoundFuzzableFunction { hir_definition, function } => {
            ids.push(*hir_definition);
            ids.push(*function);
        },
        _ => {},
    }
    proof {
        assert(ids@ =~= expression_references(*e));
    }
    ids
}

/// Adds the references of the expression to the counts.
fn collect_expression_reference_counts(e: &Expression, counts: &mut FxHashMap<Id, usize>)
    requires
        expression_references(*e).len() <= usize::MAX,
        counts_at_most(id_counts(*old(counts)), usize::MAX - expression_references(*e).len()),
    ensures
        id_counts(*final(counts)) == counted(id_counts(*old(counts)), expression_references(*e)),
    decreases e,
{
    match e {
        Expression::Function { body, .. } => {
            collect_entries_reference_counts(&body.expressions, counts);
        },
        _ => {
            let ids = direct_references(e);
            add_references(counts, &ids);
        },
    }
}

/// Adds the references of the entries' expressions to the counts.
fn collect_entries_reference_counts(entries: &Vec<(Id, Expression)>, counts: &mut FxHashMap<Id, usize>)
    requires
        entries_references(entries@).len() <= usize::MAX,
        counts_at_most(id_counts(*old(counts)), usize::MAX - entries_references(entries@).len()),
    ensures
        id_counts(*final(counts)) == counted(id_counts(*old(counts)), entries_references(entries@)),
    decreases entries,
{
    let ghost start = id_counts(*counts);
    let ghost total = entries_references(entries@).len();
    let mut i: usize = 0;
    proof {
        assert(entries@.subrange(0, 0) =~= Seq::<(Id, Expression)>::empty());
    }
    while i < entries.len()
        invariant
            i <= entries@.len(),
            start == id_counts(*old(counts)),
            total == entries_references(entries@).len(),
            total <= usize::MAX,
            counts_at_most(start, usize::MAX - total),
            id_counts(*counts) == counted(start, entries_references(entries@.subrange(0, i as int))),
        decreases entries@.len() - i,
    {
        let ghost done = entries_references(entries@.subrange(0, i as int));
        let ghost next = expression_references(entries@[i as int].1);
        proof {
            let t = entries@.subrange(0, i + 1);
            assert(t.subrange(0, t.len() - 1) =~= entries@.subrange(0, i as int));
            assert(entries_references(t) == done + next);
            lemma_entries_references_prefix(entries@, i + 1);
            lemma_counted_bound(start, done, usize::MAX - total);
        }
        collect_expression_reference_counts(&entries[i].1, counts);
        proof {
            lemma_counted_add(start, done, next);
        }
        i = i + 1;
    }
    proof {
        assert(entries@.subrange(0, entries@.len() as int) =~= entries@);
    }
}

/// The references of a prefix of the entries are no more than those of all.
proof fn lemma_entries_references_prefix(s: Seq<(Id, Expression)>, n: int)
    requires
        0 <= n <= s.len(),
    ensures
        entries_references(s.subrange(0, n)).len() <= entries_references(s).len(),
    decreases s.len() - n,
{
    if n < s.len() {
        let t = s.subrange(0, n + 1);
        assert(t.subrange(0, t.len() - 1) =~= s.subrange(0, n));
        lemma_entries_references_prefix(s, n + 1);
    } else {
        assert(s.subrange(0, n) =~= s);
    }
}

/// Counting the references of expressions and bodies.
pub trait ReferenceCounts {
    /// The IDs referred to, in order and with repetitions.
    spec fn references(&self) -> Seq<Id>;

    /// How often each ID is referred to.
    fn reference_counts(&self) -> (res: FxHashMap<Id, usize>)
        requires
            self.references().len() <= usize::MAX,
        ensures
            id_counts(res) == counted(Map::empty(), self.references()),
    {
        let mut reference_counts = empty_counts();
        proof {
            assert(id_counts(reference_counts) =~= Map::<usize, usize>::empty());
        }
        self.collect_reference_counts(&mut reference_counts);
        reference_counts
    }

    /// Adds the references to the counts.
    fn collect_reference_counts(&self, reference_counts: &mut FxHashMap<Id, usize>)
        requires
            self.references().len() <= usize::MAX,
            counts_at_most(
                id_counts(*old(reference_counts)),
                usize::MAX - self.references().len(),
            ),
        ensures
            id_counts(*final(reference_counts)) == counted(
                id_counts(*old(reference_counts)),
                self.references(),
            ),
    ;
}

impl ReferenceCounts for Expression {
    open spec fn references(&self) -> Seq<Id> {
        expression_references(*self)
    }

    fn collect_reference_counts(&self, reference_counts: &mut FxHashMap<Id, usize>) {
        collect_expression_reference_counts(self, reference_counts);
    }
}

impl ReferenceCounts for Body {
    open spec fn references(&self) -> Seq<Id> {
        entries_references(self.expressions@)
    }

    fn collect_reference_counts(&self, reference_counts: &mut FxHashMap<Id, usize>) {
        collect_entries_reference_counts(&self.expressions, reference_counts);
    }
}

impl Expression {
    /// The IDs referred to inside this expression that it does not define
    /// itself.
    pub fn captured_ids(&self) -> (res: FxHashSet<Id>)
        requires
            expression_references(*self).len() <= usize::MAX,
        ensures
            id_set(res) == counted(Map::empty(), expression_references(*self)).dom().difference(
                id_numbers(expression_defined_ids(*self)),
            ),
    {
        let mut ids = keys_of(self.reference_counts());
        let defined = self.defined_ids();
        let ghost all = id_set(ids);
        let mut i: usize = 0;
        while i < defined.len()
            invariant
                i <= defined@.len(),
                id_set(ids) == all.difference(id_numbers(defined@.take(i as int))),
            decreases defined@.len() - i,
        {
            remove_id(&mut ids, defined[i]);
            i = i + 1;
            proof {
                assert(defined@.take(i as int).drop_last() =~= defined@.take(i - 1));
                assert(id_set(ids) =~= all.difference(id_numbers(defined@.take(i as int))));
            }
        }
        proof {
            assert(defined@.take(defined@.len() as int) =~= defined@);
        }
        ids
    }
}

impl Body {
    /// All IDs referred to in the body.
    pub fn all_ids(&self) -> (res: FxHashSet<Id>)
        requires
            entries_references(self.expressions@).len() <= usize::MAX,
        ensures
            id_set(res) == counted(Map::empty(), entries_references(self.expressions@)).dom(),
    {
        keys_of(self.reference_counts())
    }
}

/// Related struct fields have related keys and values, one field after
/// another.
proof fn lemma_field_ids_related(a: Seq<(Id, Id)>, b: Seq<(Id, Id)>, r: spec_fn(Id, Id) -> bool)
    requires
        a.len() == b.len(),
        forall|i: int| 0 <= i < a.len() ==> r(a[i].0, b[i].0) && r(a[i].1, b[i].1),
    ensures
        ids_related(field_ids(a), field_ids(b), r),
    decreases a.len(),
{
    if a.len() > 0 {
        let (a0, b0) = (a.drop_last(), b.drop_last());
        assert forall|i: int| 0 <= i < a0.len() implies r(a0[i].0, b0[i].0) && r(a0[i].1, b0[i].1) by {
            assert(a0[i] == a[i] && b0[i] == b[i]);
        }
        lemma_field_ids_related(a0, b0, r);
        assert(r(a.last().0, b.last().0) && r(a.last().1, b.last().1));
        lemma_ids_related_add(
            field_ids(a0),
            field_ids(b0),
            seq![a.last().0, a.last().1],
            seq![b.last().0, b.last().1],
            r,
        );
    }
}

/// Replacing references replaces the references that are counted, one by
/// one: the references of the new expression, which its reference counts
/// count, are those of the old one, each related by the replacement to the
/// one in its place.
pub proof fn lemma_references_replaced(old: Expression, new: Expression, r: spec_fn(Id, Id) -> bool)
    requires
        references_replaced(old, new, r),
    ensures
        ids_related(expression_references(old), expression_references(new), r),
    decreases old,
{
    match (old, new) {
        (Expression::Struct(a), Expression::Struct(b)) => {
            lemma_field_ids_related(a@, b@, r);
        },
        (Expression::Function { body: b1, .. }, Expression::Function { body: b2, .. }) => {
            lemma_entries_references_replaced(b1.expressions@, b2.expressions@, r);
        },
        (
            Expression::Call { function: f1, arguments: a1, responsible: r1 },
            Expression::Call { function: f2, arguments: a2, responsible: r2 },
        ) => {
            lemma_ids_related_add(seq![f1], seq![f2], a1@, a2@, r);
            lemma_ids_related_add(seq![f1] + a1@, seq![f2] + a2@, seq![r1], seq![r2], r);
        },
        (
            Expression::TraceCallStarts {
                hir_call: h1,
                function: f1,
                arguments: a1,
                responsible: r1,
            },
            Expression::TraceCallStarts {
                hir_call: h2,
                function: f2,
                arguments: a2,
                responsible: r2,
            },
        ) => {
            lemma_ids_related_add(seq![h1, f1], seq![h2, f2], a1@, a2@, r);
            lemma_ids_related_add(seq![h1, f1] + a1@, seq![h2, f2] + a2@, seq![r1], seq![r2], r);
        },
        _ => {},
    }
}

/// Replacing the references of a body's entries replaces the references that
/// are counted, one by one.
pub proof fn lemma_entries_references_replaced(
    old: Seq<(Id, Expression)>,
    new: Seq<(Id, Expression)>,
    r: spec_fn(Id, Id) -> bool,
)
    requires
        entries_references_replaced(old, new, r),
    ensures
        ids_related(entries_references(old), entries_references(new), r),
    decreases old,
{
    if old.len() == 0 {
        assert(entries_references(new) =~= Seq::<Id>::empty());
    } else {
        let o = old.subrange(0, old.len() - 1);
        let n = new.subrange(0, new.len() - 1);
        lemma_entries_references_replaced(o, n, r);
        lemma_references_replaced(old[old.len() - 1].1, new[new.len() - 1].1, r);
        lemma_ids_related_add(
            entries_references(o),
            entries_references(n),
            expression_references(old[old.len() - 1].1),
            expression_references(new[new.len() - 1].1),
            r,
        );
    }
}

// ----------------------------------------------------------------------------
// What the reference counts count.

/// The relation keeps each of the IDs: it relates it to itself alone, if to
/// anything.
pub open spec fn keeps_each(r: spec_fn(Id, Id) -> bool, ids: Seq<Id>) -> bool {
    forall|a: Id, b: Id| ids.contains(a) && #[trigger] r(a, b) ==> a == b
}

/// Keeping the IDs of a sequence keeps those of each of its parts.
proof fn lemma_keeps_each_parts(r: spec_fn(Id, Id) -> bool, a: Seq<Id>, b: Seq<Id>)
    requires
        keeps_each(r, a + b),
    ensures
        keeps_each(r, a),
        keeps_each(r, b),
{
    assert forall|x: Id, y: Id| a.contains(x) && #[trigger] r(x, y) implies x == y by {
        let i = choose|i: int| 0 <= i < a.len() && a[i] == x;
        assert((a + b)[i] == x);
    }
    assert forall|x: Id, y: Id| b.contains(x) && #[trigger] r(x, y) implies x == y by {
        let i = choose|i: int| 0 <= i < b.len() && b[i] == x;
        assert((a + b)[a.len() + i] == x);
    }
}

/// IDs related element by element, all of them kept, are the same.
proof fn lemma_kept_related(r: spec_fn(Id, Id) -> bool, ids: Seq<Id>, a: Seq<Id>, b: Seq<Id>)
    requires
        keeps_each(r, ids),
        ids_related(a, b, r),
        forall|i: int| 0 <= i < a.len() ==> ids.contains(#[trigger] a[i]),
    ensures
        ids_related(a, b, same_id()),
{
    assert forall|i: int| 0 <= i < a.len() implies same_id()(a[i], b[i]) by {
        assert(ids.contains(a[i]));
        assert(r(a[i], b[i]));
    }
}

/// Every key and every value of the fields is among their IDs.
proof fn lemma_field_ids_contain(fields: Seq<(Id, Id)>)
    ensures
        forall|i: int|
            0 <= i < fields.len() ==> field_ids(fields).contains(#[trigger] fields[i].0)
                && field_ids(fields).contains(fields[i].1),
    decreases fields.len(),
{
    if fields.len() > 0 {
        let init = fields.drop_last();
        lemma_field_ids_contain(init);
        let ids = field_ids(fields);
        assert forall|i: int| 0 <= i < fields.len() implies field_ids(fields).contains(
            #[trigger] fields[i].0,
        ) && field_ids(fields).contains(fields[i].1) by {
            if i < init.len() {
                assert(init[i] == fields[i]);
                assert(field_ids(init).contains(init[i].0) && field_ids(init).contains(init[i].1));
                let j = choose|j: int| 0 <= j < field_ids(init).len() && field_ids(init)[j] == init[i].0;
                let k = choose|k: int| 0 <= k < field_ids(init).len() && field_ids(init)[k] == init[i].1;
                assert(ids[j] == fields[i].0);
                assert(ids[k] == fields[i].1);
            } else {
                assert(fields[i] == fields.last());
                assert(ids[field_ids(init).len() as int] == fields[i].0);
                assert(ids[field_ids(init).len() as int + 1] == fields[i].1);
            }
        }
    }
}

/// Replacing references changes only IDs that the reference counts count:
/// every ID an expression reads is among its references, so where the
/// replacement keeps each of them, the expression stays as it was.
pub proof fn lemma_replacing_uncounted_ids_changes_nothing(
    old: Expression,
    new: Expression,
    r: spec_fn(Id, Id) -> bool,
)
    requires
        keeps_each(r, expression_references(old)),
        references_replaced(old, new, r),
    ensures
        alike(old, new),
    decreases old,
{
    let refs = expression_references(old);
    match (old, new) {
        (Expression::Tag { value: v1, .. }, Expression::Tag { value: v2, .. }) => {
            if let (Some(x), Some(y)) = (v1, v2) {
                assert(refs[0] == x);
                assert(r(x, y));
            }
        },
        (Expression::List(a), Expression::List(b)) => {
            lemma_kept_related(r, refs, a@, b@);
        },
        (Expression::Struct(a), Expression::Struct(b)) => {
            lemma_field_ids_contain(a@);
            assert forall|i: int| 0 <= i < a@.len() implies same_id()(a@[i].0, b@[i].0) && same_id()(
                a@[i].1,
                b@[i].1,
            ) by {
                assert(refs.contains(a@[i].0) && refs.contains(a@[i].1));
                assert(r(a@[i].0, b@[i].0) && r(a@[i].1, b@[i].1));
            }
        },
        (Expression::Reference(x), Expression::Reference(y)) => {
            assert(refs[0] == x);
            assert(r(x, y));
        },
        (Expression::Function { body: b1, .. }, Expression::Function { body: b2, .. }) => {
            lemma_entries_replacing_uncounted_ids(b1.expressions@, b2.expressions@, r);
        },
        (
            Expression::Call { function: f1, arguments: a1, responsible: r1 },
            Expression::Call { function: f2, arguments: a2, responsible: r2 },
        ) => {
            assert(refs[0] == f1);
            assert(refs[refs.len() - 1] == r1);
            assert(r(f1, f2) && r(r1, r2));
            assert forall|i: int| 0 <= i < a1@.len() implies refs.contains(#[trigger] a1@[i]) by {
                assert(refs[1 + i] == a1@[i]);
            }
            lemma_kept_related(r, refs, a1@, a2@);
        },
        (
            Expression::UseModule { relative_path: p1, responsible: r1, .. },
            Expression::UseModule { relative_path: p2, responsible: r2, .. },
        ) => {
            assert(refs[0] == p1 && refs[1] == r1);
            assert(r(p1, p2) && r(r1, r2));
        },
        (
            Expression::Panic { reason: a1, responsible: r1 },
            Expression::Panic { reason: a2, responsible: r2 },
        ) => {
            assert(refs[0] == a1 && refs[1] == r1);
            assert(r(a1, a2) && r(r1, r2));
        },
        (
            Expression::TraceCallStarts {
                hir_call: h1,
                function: f1,
                arguments: a1,
                responsible: r1,
            },
            Expression::TraceCallStarts {
                hir_call: h2,
                function: f2,
                arguments: a2,
                responsible: r2,
            },
        ) => {
            assert(refs[0] == h1 && refs[1] == f1);
            assert(refs[refs.len() - 1] == r1);
            assert(r(h1, h2) && r(f1, f2) && r(r1, r2));
            assert forall|i: int| 0 <= i < a1@.len() implies refs.contains(#[trigger] a1@[i]) by {
                assert(refs[2 + i] == a1@[i]);
            }
            lemma_kept_related(r, refs, a1@, a2@);
        },
        (
            Expression::TraceCallEnds { return_value: v1 },
            Expression::TraceCallEnds { return_value: v2 },
        ) => {
            assert(refs[0] == v1);
            assert(r(v1, v2));
        },
        (
            Expression::TraceExpressionEvaluated { hir_expression: h1, value: v1 },
            Expression::TraceExpressionEvaluated { hir_expression: h2, value: v2 },
        ) => {
            assert(refs[0] == h1 && refs[1] == v1);
            assert(r(h1, h2) && r(v1, v2));
        },
        (
            Expression::TraceFoundFuzzableFunction { hir_definition: h1, function: f1 },
            Expression::TraceFoundFuzzableFunction { hir_definition: h2, function: f2 },
        ) => {
            assert(refs[0] == h1 && refs[1] == f1);
            assert(r(h1, h2) && r(f1, f2));
        },
        _ => {},
    }
}

/// Replacing the references of a body's entries changes only IDs that their
/// reference counts count.
pub proof fn lemma_entries_replacing_uncounted_ids(
    old: Seq<(Id, Expression)>,
    new: Seq<(Id, Expression)>,
    r: spec_fn(Id, Id) -> bool,
)
    requires
        keeps_each(r, entries_references(old)),
        entries_references_replaced(old, new, r),
    ensures
        entries_alike(old, new),
    decreases old,
{
    if old.len() > 0 {
        let o = old.subrange(0, old.len() - 1);
        let n = new.subrange(0, new.len() - 1);
        lemma_keeps_each_parts(r, entries_references(o), expression_references(old[old.len() - 1].1));
        lemma_entries_replacing_uncounted_ids(o, n, r);
        lemma_replacing_uncounted_ids_changes_nothing(old[old.len() - 1].1, new[new.len() - 1].1, r);
    }
}

/// What a sequence contains, a sequence that continues it or that it
/// continues contains too.
proof fn lemma_contains_concat(x: Seq<Id>, y: Seq<Id>)
    ensures
        forall|e: Id| x.contains(e) ==> #[trigger] (x + y).contains(e),
        forall|e: Id| y.contains(e) ==> #[trigger] (x + y).contains(e),
{
    assert forall|e: Id| x.contains(e) implies #[trigger] (x + y).contains(e) by {
        let i = choose|i: int| 0 <= i < x.len() && x[i] == e;
        assert((x + y)[i] == e);
    }
    assert forall|e: Id| y.contains(e) implies #[trigger] (x + y).contains(e) by {
        let i = choose|i: int| 0 <= i < y.len() && y[i] == e;
        assert((x + y)[x.len() + i] == e);
    }
}

/// Keeping the IDs of a sequence keeps those of any sequence within it.
proof fn lemma_keeps_each_within(r: spec_fn(Id, Id) -> bool, a: Seq<Id>, b: Seq<Id>)
    requires
        keeps_each(r, a),
        forall|e: Id| b.contains(e) ==> a.contains(e),
    ensures
        keeps_each(r, b),
{
}

/// Replacing all IDs changes only IDs that the expression defines or reads:
/// where the replacement keeps each of them, the expression stays as it was.
pub proof fn lemma_replacing_other_ids_changes_nothing(
    old: Expression,
    new: Expression,
    r: spec_fn(Id, Id) -> bool,
)
    requires
        keeps_each(r, expression_defined_ids(old) + expression_references(old)),
        ids_replaced(old, new, r),
    ensures
        alike(old, new),
    decreases old,
{
    let d = expression_defined_ids(old);
    let f = expression_references(old);
    lemma_keeps_each_parts(r, d, f);
    match (old, new) {
        (
            Expression::Function { parameters: p1, responsible_parameter: rp1, body: b1, .. },
            Expression::Function { parameters: p2, responsible_parameter: rp2, body: b2, .. },
        ) => {
            let e = entries_defined_ids(b1.expressions@);
            assert(d == p1@ + seq![rp1] + e);
            lemma_keeps_each_parts(r, p1@ + seq![rp1], e);
            lemma_keeps_each_parts(r, p1@, seq![rp1]);
            assert forall|i: int| 0 <= i < p1@.len() implies p2@[i] == p1@[i] by {
                assert(p1@.contains(p1@[i]));
                assert(r(p1@[i], p2@[i]));
            }
            assert(p2@ =~= p1@);
            assert(seq![rp1][0] == rp1);
            assert(seq![rp1].contains(rp1));
            assert(r(rp1, rp2));
            lemma_contains_concat(e, f);
            lemma_contains_concat(p1@ + seq![rp1], e);
            lemma_contains_concat(d, f);
            lemma_keeps_each_within(r, d + f, e + f);
            lemma_entries_replacing_other_ids(b1.expressions@, b2.expressions@, r);
        },
        _ => {
            lemma_replacing_uncounted_ids_changes_nothing(old, new, r);
        },
    }
}

/// Replacing all IDs of a body's entries changes only IDs that they define
/// or read.
pub proof fn lemma_entries_replacing_other_ids(
    old: Seq<(Id, Expression)>,
    new: Seq<(Id, Expression)>,
    r: spec_fn(Id, Id) -> bool,
)
    requires
        keeps_each(r, entries_defined_ids(old) + entries_references(old)),
        entries_ids_replaced(old, new, r),
    ensures
        entries_alike(old, new),
    decreases old,
{
    if old.len() > 0 {
        let o = old.subrange(0, old.len() - 1);
        let n = new.subrange(0, new.len() - 1);
        let last = old[old.len() - 1];
        let di = entries_defined_ids(o);
        let ri = entries_references(o);
        let de = expression_defined_ids(last.1);
        let re = expression_references(last.1);
        let all = entries_defined_ids(old) + entries_references(old);
        assert(entries_defined_ids(old) == di + seq![last.0] + de);
        assert(entries_references(old) == ri + re);
        lemma_contains_concat(di + seq![last.0], de);
        lemma_contains_concat(di, seq![last.0]);
        lemma_contains_concat(ri, re);
        lemma_contains_concat(entries_defined_ids(old), entries_references(old));
        lemma_contains_concat(di, ri);
        lemma_contains_concat(de, re);
        assert forall|e: Id| (di + ri).contains(e) implies all.contains(e) by {
            let i = choose|i: int| 0 <= i < (di + ri).len() && (di + ri)[i] == e;
            if i < di.len() {
                assert(di.contains(e));
            } else {
                assert(ri[i - di.len()] == e);
                assert(ri.contains(e));
            }
        }
        assert forall|e: Id| (de + re).contains(e) implies all.contains(e) by {
            let i = choose|i: int| 0 <= i < (de + re).len() && (de + re)[i] == e;
            if i < de.len() {
                assert(de[i] == e);
                assert(de.contains(e));
            } else {
                assert(re[i - de.len()] == e);
                assert(re.contains(e));
            }
        }
        lemma_keeps_each_within(r, all, di + ri);
        lemma_keeps_each_within(r, all, de + re);
        assert(seq![last.0][0] == last.0);
        assert(seq![last.0].contains(last.0));
        assert(all.contains(last.0));
        assert(r(last.0, new[new.len() - 1].0));
        lemma_entries_replacing_other_ids(o, n, r);
        lemma_replacing_other_ids_changes_nothing(last.1, new[new.len() - 1].1, r);
    }
}

} // verus!
