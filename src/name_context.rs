//! Local names inside a declaration's body: a stack of frames, where the latest
//! declaration of a name is the one in effect.
use crate::linker::chars_equal;
use vstd::prelude::*;

verus! {

pub struct LocalVariableContext<'file, IdT: Copy> {
    pub local_stack: Vec<(&'file str, IdT)>,
    pub current_frame_starts_at: usize,
}

/// The id of the latest declaration of `name` among `stack`.
pub open spec fn latest_declaration<'file, IdT>(stack: Seq<(&'file str, IdT)>, name: Seq<char>) -> Option<IdT>
    decreases stack.len(),
{
    if stack.len() == 0 {
        None
    } else if stack.last().0@ == name {
        Some(stack.last().1)
    } else {
        latest_declaration(stack.drop_last(), name)
    }
}

/// The id of the earliest declaration of `name` among `stack`.
pub open spec fn earliest_declaration<'file, IdT>(stack: Seq<(&'file str, IdT)>, name: Seq<char>) -> Option<IdT>
    decreases stack.len(),
{
    if stack.len() == 0 {
        None
    } else {
        match earliest_declaration(stack.drop_last(), name) {
            Some(id) => Some(id),
            None => if stack.last().0@ == name {
                Some(stack.last().1)
            } else {
                None
            },
        }
    }
}

impl<'file, IdT: Copy> LocalVariableContext<'file, IdT> {
    pub open spec fn wf(&self) -> bool {
        self.current_frame_starts_at <= self.local_stack@.len()
    }

    /// The latest declaration of `name` that is in scope.
    pub fn get_declaration_for(&self, name: &'file str) -> (r: Option<IdT>)
        ensures
            r == latest_declaration(self.local_stack@, name@),
    {
        let mut k: usize = self.local_stack.len();
        proof {
            assert(self.local_stack@.take(k as int) =~= self.local_stack@);
        }
        while k > 0
            invariant
                k <= self.local_stack@.len(),
                latest_declaration(self.local_stack@, name@) == latest_declaration(self.local_stack@.take(k as int), name@),
            decreases k,
        {
            proof {
                assert(self.local_stack@.take(k as int).drop_last() =~= self.local_stack@.take(k as int - 1));
            }
            let (decl_name, unique_id) = self.local_stack[k - 1];
            if chars_equal(decl_name, name) {
                return Some(unique_id);
            }
            k = k - 1;
        }
        None
    }

    /// The declarations of the current frame.
    pub open spec fn current_frame(&self) -> Seq<(&'file str, IdT)> {
        self.local_stack@.subrange(self.current_frame_starts_at as int, self.local_stack@.len() as int)
    }

    /// Declares `new_local_name`, unless the current frame already declares it: then that earlier
    /// declaration's id comes back as the error. A name of an outer frame is shadowed.
    pub fn add_declaration(&mut self, new_local_name: &'file str, new_local_unique_id: IdT) -> (r: Result<(), IdT>)
        requires
            old(self).wf(),
        ensures
            final(self).current_frame_starts_at == old(self).current_frame_starts_at,
            match earliest_declaration(old(self).current_frame(), new_local_name@) {
                Some(existing) => r == Err::<(), IdT>(existing) && final(self).local_stack@ == old(self).local_stack@,
                None => r is Ok && final(self).local_stack@ == old(self).local_stack@.push((new_local_name, new_local_unique_id)),
            },
    {
        let start = self.current_frame_starts_at;
        let ghost frame = self.current_frame();
        let mut k: usize = start;
        while k < self.local_stack.len()
            invariant
                start <= k <= self.local_stack@.len(),
                start == self.current_frame_starts_at,
                frame == self.local_stack@.subrange(start as int, self.local_stack@.len() as int),
                earliest_declaration(frame.take(k - start), new_local_name@) is None,
            decreases self.local_stack@.len() - k,
        {
            proof {
                assert(frame.take(k - start + 1).drop_last() =~= frame.take(k - start));
                assert(frame[k - start] == self.local_stack@[k as int]);
            }
            let (existing_local_name, existing_local_id) = self.local_stack[k];
            if chars_equal(new_local_name, existing_local_name) {
                proof {
                    lemma_earliest_prefix(frame, new_local_name@, k - start + 1);
                }
                return Err(existing_local_id);
            }
            k = k + 1;
        }
        proof {
            assert(frame.take(frame.len() as int) =~= frame);
        }
        self.local_stack.push((new_local_name, new_local_unique_id));
        Ok(())
    }

    pub fn new_initial() -> (r: Self)
        ensures
            r.wf(),
            r.local_stack@.len() == 0,
            r.current_frame_starts_at == 0,
    {
        LocalVariableContext { local_stack: Vec::new(), current_frame_starts_at: 0 }
    }

    /// Opens a frame; the value returned closes it again through `pop_frame`.
    pub fn new_frame(&mut self) -> (r: usize)
        ensures
            final(self).wf(),
            r == old(self).local_stack@.len(),
            final(self).current_frame_starts_at == r,
            final(self).local_stack@ == old(self).local_stack@,
    {
        self.current_frame_starts_at = self.local_stack.len();
        self.current_frame_starts_at
    }

    /// Closes frames back to `prev_save`, dropping the declarations made since.
    pub fn pop_frame(&mut self, prev_save: usize)
        requires
            old(self).current_frame_starts_at >= prev_save,
            old(self).wf(),
        ensures
            final(self).wf(),
            final(self).current_frame_starts_at == prev_save,
            final(self).local_stack@ == old(self).local_stack@.take(prev_save as int),
    {
        self.current_frame_starts_at = prev_save;
        self.local_stack.truncate(prev_save);
    }
}

proof fn lemma_earliest_prefix<'file, IdT>(stack: Seq<(&'file str, IdT)>, name: Seq<char>, k: int)
    requires
        0 < k <= stack.len(),
        earliest_declaration(stack.take(k), name) is Some,
    ensures
        earliest_declaration(stack, name) == earliest_declaration(stack.take(k), name),
    decreases stack.len() - k,
{
    if k < stack.len() {
        assert(stack.take(k + 1).drop_last() =~= stack.take(k));
        lemma_earliest_prefix(stack, name, k + 1);
    } else {
        assert(stack.take(k) =~= stack);
    }
}

} // verus!
