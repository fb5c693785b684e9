//! Diagnostics: one primary message at a span, with secondary info labels.
use crate::file_position::Span;
use crate::linker::FileUUID;
use vstd::prelude::*;

verus! {

/// A secondary label of a diagnostic: a place in some file and what it says.
pub struct ErrorInfo {
    pub position: Span,
    pub file: FileUUID,
    pub info: String,
}

/// A diagnostic, placed in the file of the unit that reported it.
pub struct ParsingError {
    pub position: Span,
    pub reason: String,
    pub infos: Vec<ErrorInfo>,
}

/// What an info label says: its span, the index of its file, and its text.
pub type InfoView = (Span, usize, Seq<char>);

/// What a diagnostic says: its span, its message and its info labels in order.
pub type ErrorView = (Span, Seq<char>, Seq<InfoView>);

impl View for ErrorInfo {
    type V = InfoView;

    open spec fn view(&self) -> InfoView {
        (self.position, self.file.hidden_value, self.info@)
    }
}

pub open spec fn infos_view(infos: Seq<ErrorInfo>) -> Seq<InfoView> {
    infos.map_values(|i: ErrorInfo| i@)
}

impl View for ParsingError {
    type V = ErrorView;

    open spec fn view(&self) -> ErrorView {
        (self.position, self.reason@, infos_view(self.infos@))
    }
}

pub fn error_info(position: Span, file: FileUUID, reason: String) -> (r: ErrorInfo)
    ensures
        r@ == (position, file.hidden_value, reason@),
{
    ErrorInfo { position, file, info: reason }
}

/// The append-only list of diagnostics of one unit.
pub struct ErrorStore {
    errors: Vec<ParsingError>,
}

impl View for ErrorStore {
    type V = Seq<ErrorView>;

    closed spec fn view(&self) -> Seq<ErrorView> {
        self.errors@.map_values(|e: ParsingError| e@)
    }
}

impl ErrorStore {
    pub fn new() -> (r: ErrorStore)
        ensures
            r@ == Seq::<ErrorView>::empty(),
    {
        ErrorStore { errors: Vec::new() }
    }

    pub fn len(&self) -> (r: usize)
        ensures
            r == self@.len(),
    {
        self.errors.len()
    }

    pub fn push(&mut self, e: ParsingError)
        ensures
            final(self)@ == old(self)@.push(e@),
    {
        self.errors.push(e);
        proof {
            assert(final(self)@ =~= old(self)@.push(e@));
        }
    }

    /// Hands out the diagnostics and leaves the store empty.
    pub fn take(&mut self) -> (r: ErrorStore)
        ensures
            r@ == old(self)@,
            final(self)@ == Seq::<ErrorView>::empty(),
    {
        let mut errors = Vec::new();
        core::mem::swap(&mut errors, &mut self.errors);
        proof {
            assert(final(self)@ =~= Seq::<ErrorView>::empty());
        }
        ErrorStore { errors }
    }

    pub fn is_untouched(&self) -> (r: bool)
        ensures
            r == (self@.len() == 0),
    {
        self.errors.len() == 0
    }

    /// Drops every diagnostic after the first `len`.
    pub fn reset_to(&mut self, len: usize)
        ensures
            final(self)@ == if len <= old(self)@.len() {
                old(self)@.subrange(0, len as int)
            } else {
                old(self)@
            },
    {
        if len <= self.errors.len() {
            self.errors.truncate(len);
            proof {
                assert(final(self)@ =~= old(self)@.subrange(0, len as int));
            }
        }
    }

    pub fn get(&self, i: usize) -> (r: &ParsingError)
        requires
            i < self@.len(),
        ensures
            r@ == self@[i as int],
    {
        &self.errors[i]
    }
}

/// Collects the diagnostics of one unit, all placed in the unit's file.
pub struct ErrorCollector {
    pub store: ErrorStore,
    pub main_file: FileUUID,
}

impl ErrorCollector {
    pub fn new(main_file: FileUUID) -> (r: ErrorCollector)
        ensures
            r.store@ == Seq::<ErrorView>::empty(),
            r.main_file == main_file,
    {
        ErrorCollector { store: ErrorStore::new(), main_file }
    }

    pub fn from_storage(store: ErrorStore, main_file: FileUUID) -> (r: ErrorCollector)
        ensures
            r.store@ == store@,
            r.main_file == main_file,
    {
        ErrorCollector { store, main_file }
    }

    pub fn into_storage(self) -> (r: ErrorStore)
        ensures
            r@ == self.store@,
    {
        self.store
    }

    pub fn error_basic(&mut self, position: Span, reason: String)
        ensures
            final(self).main_file == old(self).main_file,
            final(self).store@ == old(self).store@.push((position, reason@, Seq::<InfoView>::empty())),
    {
        let e = ParsingError { position, reason, infos: Vec::new() };
        proof {
            assert(infos_view(e.infos@) =~= Seq::<InfoView>::empty());
        }
        self.store.push(e);
    }

    pub fn error_with_info(&mut self, position: Span, reason: String, infos: Vec<ErrorInfo>)
        ensures
            final(self).main_file == old(self).main_file,
            final(self).store@ == old(self).store@.push((position, reason@, infos_view(infos@))),
    {
        self.store.push(ParsingError { position, reason, infos });
    }
}

impl ErrorInfo {
    pub fn copy(&self) -> (r: ErrorInfo)
        ensures
            r@ == self@,
    {
        ErrorInfo { position: self.position, file: self.file, info: self.info.clone() }
    }
}

impl ParsingError {
    pub fn copy(&self) -> (r: ParsingError)
        ensures
            r@ == self@,
    {
        let mut infos: Vec<ErrorInfo> = Vec::new();
        let mut k: usize = 0;
        while k < self.infos.len()
            invariant
                k <= self.infos@.len(),
                infos_view(infos@) == infos_view(self.infos@.take(k as int)),
            decreases self.infos@.len() - k,
        {
            let ghost before = infos@;
            infos.push(self.infos[k].copy());
            proof {
                assert(infos_view(infos@) =~= infos_view(before).push(self.infos@[k as int]@));
                assert(infos_view(self.infos@.take(k as int + 1)) =~= infos_view(self.infos@.take(k as int)).push(self.infos@[k as int]@));
            }
            k = k + 1;
        }
        proof {
            assert(self.infos@.take(self.infos@.len() as int) =~= self.infos@);
        }
        ParsingError { position: self.position, reason: self.reason.clone(), infos }
    }
}

impl ErrorStore {
    /// Appends copies of the diagnostics of `self` to `out`.
    pub fn copy_into(&self, out: &mut Vec<ParsingError>)
        ensures
            final(out)@.map_values(|e: ParsingError| e@) == old(out)@.map_values(|e: ParsingError| e@) + self@,
    {
        let mut k: usize = 0;
        while k < self.errors.len()
            invariant
                k <= self.errors@.len(),
                out@.map_values(|e: ParsingError| e@) == old(out)@.map_values(|e: ParsingError| e@) + self@.take(k as int),
            decreases self.errors@.len() - k,
        {
            let ghost before = out@;
            out.push(self.errors[k].copy());
            proof {
                assert(out@.map_values(|e: ParsingError| e@) =~= before.map_values(|e: ParsingError| e@).push(self@[k as int]));
                assert(self@.take(k as int + 1) =~= self@.take(k as int).push(self@[k as int]));
            }
            k = k + 1;
        }
        proof {
            assert(self@.take(self@.len() as int) =~= self@);
        }
    }
}

/// `'a','b',` : each name quoted and followed by a comma.
pub open spec fn quoted_with_commas(names: Seq<Seq<char>>) -> Seq<char>
    decreases names.len(),
{
    if names.len() == 0 {
        Seq::empty()
    } else {
        quoted_with_commas(names.drop_last()) + "'"@ + names.last() + "',"@
    }
}

/// `'a','b', or 'c'`: the names that a parser expected, for a syntax error.
pub open spec fn expected_list_text(names: Seq<Seq<char>>) -> Seq<char> {
    quoted_with_commas(names.drop_last()) + (if names.len() >= 2 { " or "@ } else { Seq::empty() }) + "'"@ + names.last() + "'"@
}

/// Lists the names of expected tokens, the last one after " or ".
pub fn join_expected_list(expected: &Vec<String>) -> (r: String)
    requires
        expected@.len() > 0,
    ensures
        r@ == expected_list_text(expected@.map_values(|s: String| s@)),
{
    let ghost names = expected@.map_values(|s: String| s@);
    let n = expected.len();
    let mut result = String::new();
    let mut k: usize = 0;
    while k < n - 1
        invariant
            n == expected@.len(),
            n > 0,
            k <= n - 1,
            names == expected@.map_values(|s: String| s@),
            result@ == quoted_with_commas(names.take(k as int)),
        decreases n - 1 - k,
    {
        result.append("'");
        result.append(expected[k].as_str());
        result.append("',");
        proof {
            assert(names.take(k as int + 1).drop_last() =~= names.take(k as int));
        }
        k = k + 1;
    }
    if n >= 2 {
        result.append(" or ");
    }
    result.append("'");
    result.append(expected[n - 1].as_str());
    result.append("'");
    proof {
        assert(names.take(n - 1) =~= names.drop_last());
        assert(result@ =~= expected_list_text(names));
    }
    result
}

} // verus!
