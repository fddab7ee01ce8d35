//! The error reporting abstraction: an append-only, ordered sink of typed,
//! described error records. Reporting never fails and never halts the
//! producer; the caller owns the sink and inspects it afterwards.

use vstd::prelude::*;

verus! {

/// Mathematical view of one error record: a fixed stage code, a general
/// title, a rendered `"line:col"` position label, and a longer description.
pub struct ErrV {
    pub id: nat,
    pub title: Seq<char>,
    pub snippet: Seq<char>,
    pub description: Seq<char>,
}

/// The uniform rendering of an error record:
/// `<stage> | <title> at <position_label> => <description>`.
pub open spec fn rendered_line(stage: Seq<char>, e: ErrV) -> Seq<char> {
    stage + " | "@ + e.title + " at "@ + e.snippet + " => "@ + e.description
}

/// A typed, described error produced by one stage of the pipeline.
pub trait CompilerError: View<V = ErrV> + Send + Sync + Sized {
    /// View of the stage label, a fixed string naming the producing phase.
    spec fn stage_name(&self) -> Seq<char>;

    /// Numeric stage code of the error.
    fn id(&self) -> (r: usize)
        ensures
            r as nat == self@.id,
    ;

    /// Generalized description.
    fn title(&self) -> (r: &str)
        ensures
            r@ == self@.title,
    ;

    /// Rendered `"line:col"` label of where the error arose.
    fn summary(&self) -> (r: &str)
        ensures
            r@ == self@.snippet,
    ;

    /// More detail.
    fn description(&self) -> (r: &str)
        ensures
            r@ == self@.description,
    ;

    /// Stage of the compiler that reported this error.
    fn stage(&self) -> (r: &'static str)
        ensures
            r@ == self.stage_name(),
    ;
}

/// A capability for accumulating errors without halting the producer:
/// append-only, insertion order preserved, no deduplication, no removal.
pub trait ErrorReporter<E: View>: Send + Sync + Sized {
    /// The accumulated error records, in report order.
    spec fn sink(&self) -> Seq<E::V>;

    /// Appends an error. Reporting is unconditionally successful.
    fn report(&mut self, error: E)
        ensures
            final(self).sink() == old(self).sink().push(error@),
    ;

    /// True iff at least one error has been reported.
    fn has_errors(&self) -> (r: bool)
        ensures
            r == (self.sink().len() > 0),
    ;

    /// The full accumulated sequence, by reference.
    fn errors(&self) -> (r: &[E])
        ensures
            r@.len() == self.sink().len(),
            forall|i: int| 0 <= i < r@.len() ==> #[trigger] r@[i]@ == self.sink()[i],
    ;
}

/// An ordered, append-only container of error records of one concrete kind.
pub struct ErrorBucket<T> {
    errors: Vec<T>,
}

impl<T: View> View for ErrorBucket<T> {
    type V = Seq<T::V>;

    closed spec fn view(&self) -> Seq<T::V> {
        Seq::new(self.errors@.len(), |i: int| self.errors@[i]@)
    }
}

impl<T: View> ErrorBucket<T> {
    /// An initially empty sink.
    pub fn new() -> (r: Self)
        ensures
            r@ == Seq::<T::V>::empty(),
    {
        let r = Self { errors: vec![] };
        proof {
            assert(r@ =~= Seq::<T::V>::empty());
        }
        r
    }
}

impl<T: View + CompilerError> ErrorReporter<T> for ErrorBucket<T> {
    open spec fn sink(&self) -> Seq<T::V> {
        self@
    }

    fn report(&mut self, error: T) {
        self.errors.push(error);
        proof {
            assert(self@ =~= old(self)@.push(error@));
        }
    }

    fn has_errors(&self) -> (r: bool) {
        !self.errors.is_empty()
    }

    fn errors(&self) -> (r: &[T]) {
        self.errors.as_slice()
    }
}

} // verus!
