//! Spans of global names to color in an editor, by the kind of global they name.
use crate::compiler_top::unit_link_info;
use crate::file_position::Span;
use crate::linker::{BUILTIN_COUNT, LinkInfo, Linker, Named, NamedUUID, spec_link_info};
use crate::template::GlobalReference;
use vstd::prelude::*;

verus! {

#[derive(Clone, Copy, Debug, PartialEq, Eq, Structural)]
pub enum IDEIdentifierType {
    Type,
    Interface,
    Constant,
}

pub open spec fn color_of(n: Named) -> IDEIdentifierType {
    match n {
        Named::Module(_) => IDEIdentifierType::Interface,
        Named::Type(_) => IDEIdentifierType::Type,
        Named::Constant(_) => IDEIdentifierType::Constant,
    }
}

/// The colored mentions of a flattened body, in order; mentions of globals that are gone are left out.
pub open spec fn instruction_colors(linker: Linker, instructions: Seq<GlobalReference<NamedUUID>>) -> Seq<(IDEIdentifierType, Span)>
    decreases instructions.len(),
{
    if instructions.len() == 0 {
        Seq::empty()
    } else {
        let last = instructions.last();
        instruction_colors(linker, instructions.drop_last()) + if linker.is_entity(last.id.hidden_value as int) {
            seq![(color_of(linker.entity(last.id.hidden_value as int)), last.name_span)]
        } else {
            Seq::empty()
        }
    }
}

/// The colored names of the declarations `ids`: for each live one, what its body mentions, then its own name.
pub open spec fn name_colors(linker: Linker, ids: Seq<NamedUUID>) -> Seq<(IDEIdentifierType, Span)>
    decreases ids.len(),
{
    if ids.len() == 0 {
        Seq::empty()
    } else {
        let i = ids.last().hidden_value as int;
        name_colors(linker, ids.drop_last()) + if linker.is_entity(i) && i >= BUILTIN_COUNT {
            let li = unit_link_info(linker, i);
            instruction_colors(linker, li.instructions@) + seq![(color_of(linker.entity(i)), li.name_span)]
        } else {
            Seq::empty()
        }
    }
}

fn color(n: &Named) -> (r: IDEIdentifierType)
    ensures
        r == color_of(*n),
{
    match n {
        Named::Module(_) => IDEIdentifierType::Interface,
        Named::Type(_) => IDEIdentifierType::Type,
        Named::Constant(_) => IDEIdentifierType::Constant,
    }
}

/// Colors every global name that the given declarations write: those their bodies mention, then their own.
pub fn walk_name_color(all_objects: &Vec<NamedUUID>, linker: &Linker) -> (r: Vec<(IDEIdentifierType, Span)>)
    requires
        linker.wf(),
    ensures
        r@ == name_colors(*linker, all_objects@),
{
    let mut result: Vec<(IDEIdentifierType, Span)> = Vec::new();
    let mut k: usize = 0;
    while k < all_objects.len()
        invariant
            k <= all_objects@.len(),
            linker.wf(),
            result@ == name_colors(*linker, all_objects@.take(k as int)),
        decreases all_objects@.len() - k,
    {
        let id = all_objects[k];
        proof {
            assert(all_objects@.take(k as int + 1).drop_last() =~= all_objects@.take(k as int));
        }
        if id.hidden_value >= BUILTIN_COUNT && linker.globals.is_live(id) {
            proof {
                assert(crate::linker::live(linker.globals, id.hidden_value as int));
                assert(crate::linker::user_entity_wf(linker.globals, linker.files, id.hidden_value as int));
            }
            let li: &LinkInfo = linker.get_link_info(id);
            let ghost before = result@;
            let mut j: usize = 0;
            while j < li.instructions.len()
                invariant
                    j <= li.instructions@.len(),
                    result@ == before + instruction_colors(*linker, li.instructions@.take(j as int)),
                decreases li.instructions@.len() - j,
            {
                let instruction = &li.instructions[j];
                proof {
                    assert(li.instructions@.take(j as int + 1).drop_last() =~= li.instructions@.take(j as int));
                }
                if linker.globals.is_live(instruction.id) {
                    let target = linker.globals.get(instruction.id);
                    result.push((color(target), instruction.name_span));
                }
                proof {
                    assert(result@ =~= before + instruction_colors(*linker, li.instructions@.take(j as int + 1)));
                }
                j = j + 1;
            }
            proof {
                assert(li.instructions@.take(li.instructions@.len() as int) =~= li.instructions@);
            }
            let own = color(linker.globals.get(id));
            result.push((own, li.name_span));
        }
        proof {
            assert(result@ =~= name_colors(*linker, all_objects@.take(k as int + 1)));
        }
        k = k + 1;
    }
    proof {
        assert(all_objects@.take(all_objects@.len() as int) =~= all_objects@);
    }
    result
}

} // verus!
