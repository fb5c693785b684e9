//! Memoized instantiations of generic declarations, keyed by their concrete template arguments.
use crate::errors::{ErrorCollector, ErrorStore, ErrorView};
use crate::linker::{LinkInfo, NamedUUID};
use crate::template::{
    ConcreteTemplateArg, ConcreteType, GlobalReference, check_all_template_args_valid, missing_error, missing_inputs,
};
use std::rc::Rc;
use vstd::prelude::*;

verus! {

/// A declaration specialized for one tuple of concrete template arguments.
pub struct InstantiatedModule {
    pub name: String,
    pub template_args: Vec<ConcreteTemplateArg>,
    /// The globals that the body refers to, in order.
    pub references: Vec<NamedUUID>,
}

/// One memoized instantiation: its arguments, and the result, or none where they were not valid.
pub struct InstantiationEntry {
    pub args: Vec<ConcreteTemplateArg>,
    pub result: Option<Rc<InstantiatedModule>>,
}

pub struct InstantiationList {
    pub cache: Vec<InstantiationEntry>,
    /// Diagnostics of failed instantiations; each is reported once, when its arguments are first seen.
    pub errors: ErrorStore,
}

/// The first entry of `entries` for the arguments `args`.
pub open spec fn find_entry(entries: Seq<InstantiationEntry>, args: Seq<ConcreteTemplateArg>) -> Option<int>
    decreases entries.len(),
{
    if entries.len() == 0 {
        None
    } else {
        match find_entry(entries.drop_last(), args) {
            Some(i) => Some(i),
            None => if entries.last().args@ == args {
                Some(entries.len() - 1)
            } else {
                None
            },
        }
    }
}

pub open spec fn reference_targets(refs: Seq<GlobalReference<NamedUUID>>) -> Seq<NamedUUID> {
    refs.map_values(|r: GlobalReference<NamedUUID>| r.id)
}

/// What `instantiate` does: a memoized result comes back unchanged with nothing reported again;
/// new arguments are validated, then the result, or its absence, is memoized.
pub open spec fn instantiate_post(
    before: InstantiationList,
    link_info: LinkInfo,
    instructions: Seq<GlobalReference<NamedUUID>>,
    args: Seq<ConcreteTemplateArg>,
    after: InstantiationList,
    r: Option<Rc<InstantiatedModule>>,
) -> bool {
    match find_entry(before.cache@, args) {
        Some(i) => {
            &&& r == before.cache@[i].result
            &&& after.cache@ == before.cache@
            &&& after.errors@ == before.errors@
        },
        None => {
            let missing = missing_inputs(link_info.template_arguments@, args);
            &&& after.cache@.len() == before.cache@.len() + 1
            &&& after.cache@.drop_last() == before.cache@
            &&& after.cache@.last().args@ == args
            &&& after.cache@.last().result == r
            &&& if missing.len() == 0 {
                &&& after.errors@ == before.errors@
                &&& r matches Some(m) && {
                    &&& m.name@ == link_info.name@
                    &&& m.template_args@ == args
                    &&& m.references@ == reference_targets(instructions)
                }
            } else {
                &&& r is None
                &&& after.errors@ == before.errors@.push(missing_error(link_info.name_span, link_info, missing))
            }
        },
    }
}

fn same_arg(a: &ConcreteTemplateArg, b: &ConcreteTemplateArg) -> (r: bool)
    ensures
        r == (*a == *b),
{
    match (a, b) {
        (ConcreteTemplateArg::Type(ConcreteType::Named(x)), ConcreteTemplateArg::Type(ConcreteType::Named(y))) => {
            x.hidden_value == y.hidden_value
        },
        (ConcreteTemplateArg::Value(x), ConcreteTemplateArg::Value(y)) => *x == *y,
        (ConcreteTemplateArg::NotProvided, ConcreteTemplateArg::NotProvided) => true,
        _ => false,
    }
}

fn same_args(a: &Vec<ConcreteTemplateArg>, b: &Vec<ConcreteTemplateArg>) -> (r: bool)
    ensures
        r == (a@ == b@),
{
    if a.len() != b.len() {
        return false;
    }
    let mut k: usize = 0;
    while k < a.len()
        invariant
            k <= a@.len(),
            a@.len() == b@.len(),
            forall|j: int| 0 <= j < k ==> a@[j] == b@[j],
        decreases a@.len() - k,
    {
        if !same_arg(&a[k], &b[k]) {
            return false;
        }
        k = k + 1;
    }
    proof {
        assert(a@ =~= b@);
    }
    true
}

fn copy_args(a: &Vec<ConcreteTemplateArg>) -> (r: Vec<ConcreteTemplateArg>)
    ensures
        r@ == a@,
{
    let mut r: Vec<ConcreteTemplateArg> = Vec::new();
    let mut k: usize = 0;
    while k < a.len()
        invariant
            k <= a@.len(),
            r@ == a@.take(k as int),
        decreases a@.len() - k,
    {
        r.push(a[k]);
        proof {
            assert(a@.take(k as int + 1) =~= a@.take(k as int).push(a@[k as int]));
        }
        k = k + 1;
    }
    proof {
        assert(a@.take(a@.len() as int) =~= a@);
    }
    r
}

fn targets_of(refs: &Vec<GlobalReference<NamedUUID>>) -> (r: Vec<NamedUUID>)
    ensures
        r@ == reference_targets(refs@),
{
    let mut r: Vec<NamedUUID> = Vec::new();
    let mut k: usize = 0;
    while k < refs.len()
        invariant
            k <= refs@.len(),
            r@ == reference_targets(refs@.take(k as int)),
        decreases refs@.len() - k,
    {
        r.push(refs[k].id);
        proof {
            assert(reference_targets(refs@.take(k as int + 1)) =~= reference_targets(refs@.take(k as int)).push(refs@[k as int].id));
        }
        k = k + 1;
    }
    proof {
        assert(refs@.take(refs@.len() as int) =~= refs@);
    }
    r
}

/// Another handle on the same instance.
fn share(r: &Option<Rc<InstantiatedModule>>) -> (s: Option<Rc<InstantiatedModule>>)
    ensures
        s == *r,
{
    match r {
        Some(m) => Some(m.clone()),
        None => None,
    }
}

impl InstantiationList {
    pub fn new() -> (r: InstantiationList)
        ensures
            r.cache@.len() == 0,
            r.errors@ == Seq::<ErrorView>::empty(),
    {
        InstantiationList { cache: Vec::new(), errors: ErrorStore::new() }
    }

    /// Forgets every instantiation, for when the body they came from has changed.
    pub fn clear_instances(&mut self)
        ensures
            final(self).cache@.len() == 0,
            final(self).errors@ == Seq::<ErrorView>::empty(),
    {
        self.cache = Vec::new();
        self.errors = ErrorStore::new();
    }

    fn find(&self, args: &Vec<ConcreteTemplateArg>) -> (r: Option<usize>)
        ensures
            match r {
                Some(i) => find_entry(self.cache@, args@) == Some(i as int) && i < self.cache@.len(),
                None => find_entry(self.cache@, args@) is None,
            },
    {
        let mut k: usize = 0;
        while k < self.cache.len()
            invariant
                k <= self.cache@.len(),
                find_entry(self.cache@.take(k as int), args@) is None,
            decreases self.cache@.len() - k,
        {
            proof {
                assert(self.cache@.take(k as int + 1).drop_last() =~= self.cache@.take(k as int));
            }
            if same_args(&self.cache[k].args, args) {
                proof {
                    lemma_find_entry_prefix(self.cache@, args@, k as int + 1);
                }
                return Some(k);
            }
            k = k + 1;
        }
        proof {
            assert(self.cache@.take(self.cache@.len() as int) =~= self.cache@);
        }
        None
    }

    /// The instance of `link_info`'s declaration for `args`: memoized, or made, validated and memoized now.
    pub fn instantiate(
        &mut self,
        link_info: &LinkInfo,
        args: &Vec<ConcreteTemplateArg>,
    ) -> (r: Option<Rc<InstantiatedModule>>)
        requires
            args@.len() == link_info.template_arguments@.len(),
        ensures
            instantiate_post(*old(self), *link_info, link_info.instructions@, args@, *final(self), r),
    {
        match self.find(args) {
            Some(i) => {
                return share(&self.cache[i].result);
            },
            None => {},
        }
        let mut errors = ErrorCollector::from_storage(self.errors.take(), link_info.file);
        let valid = check_all_template_args_valid(&mut errors, link_info.name_span, link_info, args);
        self.errors = errors.into_storage();
        let result = if valid {
            Some(
                Rc::new(
                    InstantiatedModule {
                        name: link_info.name.clone(),
                        template_args: copy_args(args),
                        references: targets_of(&link_info.instructions),
                    },
                ),
            )
        } else {
            None
        };
        let ghost before_cache = self.cache@;
        self.cache.push(InstantiationEntry { args: copy_args(args), result: share(&result) });
        proof {
            assert(self.cache@.drop_last() =~= before_cache);
        }
        result
    }
}

proof fn lemma_find_entry_prefix(entries: Seq<InstantiationEntry>, args: Seq<ConcreteTemplateArg>, k: int)
    requires
        0 < k <= entries.len(),
        find_entry(entries.take(k), args) is Some,
    ensures
        find_entry(entries, args) == find_entry(entries.take(k), args),
    decreases entries.len() - k,
{
    if k < entries.len() {
        assert(entries.take(k + 1).drop_last() =~= entries.take(k));
        lemma_find_entry_prefix(entries, args, k + 1);
    } else {
        assert(entries.take(k) =~= entries);
    }
}

/// Instantiating twice with the same arguments gives the same shared instance the second
/// time, and leaves the cache and its diagnostics as the first call left them.
pub proof fn lemma_instantiate_twice_reuses(
    c0: InstantiationList,
    c1: InstantiationList,
    c2: InstantiationList,
    link_info: LinkInfo,
    instructions: Seq<GlobalReference<NamedUUID>>,
    args: Seq<ConcreteTemplateArg>,
    r1: Option<Rc<InstantiatedModule>>,
    r2: Option<Rc<InstantiatedModule>>,
)
    requires
        instantiate_post(c0, link_info, instructions, args, c1, r1),
        instantiate_post(c1, link_info, instructions, args, c2, r2),
    ensures
        r2 == r1,
        c2.cache@ == c1.cache@,
        c2.errors@ == c1.errors@,
{
    if find_entry(c0.cache@, args) is None {
        assert(c1.cache@.drop_last() == c0.cache@);
        assert(find_entry(c1.cache@, args) == Some(c0.cache@.len() as int));
    }
}

} // verus!
