use vstd::prelude::*;

verus! {

/// Rendered pieces and non-fatal errors, both kept in the order they came.
pub struct Builder<T, E> {
    values: Vec<T>,
    errors: Vec<E>,
}

/// The values among `records`, in order.
pub open spec fn oks<T, E>(records: Seq<Result<T, E>>) -> Seq<T>
    decreases records.len(),
{
    if records.len() == 0 {
        Seq::empty()
    } else {
        match records.last() {
            Ok(v) => oks(records.drop_last()).push(v),
            Err(_) => oks(records.drop_last()),
        }
    }
}

/// The errors among `records`, in order.
pub open spec fn errs<T, E>(records: Seq<Result<T, E>>) -> Seq<E>
    decreases records.len(),
{
    if records.len() == 0 {
        Seq::empty()
    } else {
        match records.last() {
            Ok(_) => errs(records.drop_last()),
            Err(e) => errs(records.drop_last()).push(e),
        }
    }
}

impl<T, E> View for Builder<T, E> {
    type V = (Seq<T>, Seq<E>);

    closed spec fn view(&self) -> (Seq<T>, Seq<E>) {
        (self.values@, self.errors@)
    }
}

impl<T, E> Builder<T, E> {
    /// A builder that holds nothing.
    pub fn new() -> (r: Builder<T, E>)
        ensures
            r@.0.len() == 0,
            r@.1.len() == 0,
    {
        Builder { values: Vec::new(), errors: Vec::new() }
    }

    /// Sorts each record into the values or the errors, keeping their order.
    pub fn from_results(records: Vec<Result<T, E>>) -> (r: Builder<T, E>)
        ensures
            r@.0 == oks(records@),
            r@.1 == errs(records@),
    {
        let ghost all = records@;
        let mut b = Builder::new();
        for item in it: records.into_iter()
            invariant
                it.seq() == all,
                b@.0 == oks(all.take(it.index() as int)),
                b@.1 == errs(all.take(it.index() as int)),
        {
            proof {
                assert(all.take(it.index() + 1).drop_last() =~= all.take(it.index() as int));
            }
            match item {
                Ok(v) => b.values.push(v),
                Err(e) => b.errors.push(e),
            }
        }
        assert(all.take(all.len() as int) =~= all);
        b
    }

    /// Adds a rendered piece.
    pub fn append(&mut self, value: T)
        ensures
            final(self)@.0 == old(self)@.0.push(value),
            final(self)@.1 == old(self)@.1,
    {
        self.values.push(value)
    }

    /// Adds an error.
    pub fn warn(&mut self, value: E)
        ensures
            final(self)@.0 == old(self)@.0,
            final(self)@.1 == old(self)@.1.push(value),
    {
        self.errors.push(value)
    }

    /// The pieces added so far.
    pub fn result(&self) -> (r: &[T])
        ensures
            r@ == self@.0,
    {
        self.values.as_slice()
    }

    /// The errors added so far.
    pub fn errors(&self) -> (r: &[E])
        ensures
            r@ == self@.1,
    {
        self.errors.as_slice()
    }

    /// The values when no error was added, else the errors.
    pub fn into_result(self) -> (r: Result<Vec<T>, Vec<E>>)
        ensures
            self@.1.len() == 0 ==> (r matches Ok(v) && v@ == self@.0),
            self@.1.len() > 0 ==> (r matches Err(e) && e@ == self@.1),
    {
        if self.errors.len() == 0 {
            Ok(self.values)
        } else {
            Err(self.errors)
        }
    }

    /// Applies `f` to each value; the errors stay as they are.
    pub fn map<U, F: Fn(T) -> U>(self, f: F) -> (r: Builder<U, E>)
        requires
            forall|i: int| 0 <= i < self@.0.len() ==> f.requires((self@.0[i],)),
        ensures
            r@.0.len() == self@.0.len(),
            forall|i: int| 0 <= i < self@.0.len() ==> f.ensures((self@.0[i],), r@.0[i]),
            r@.1 == self@.1,
    {
        let ghost src = self@.0;
        let mut values: Vec<U> = Vec::new();
        for v in it: self.values.into_iter()
            invariant
                it.seq() == src,
                values@.len() == it.index(),
                forall|i: int| 0 <= i < src.len() ==> f.requires((src[i],)),
                forall|i: int| 0 <= i < values@.len() ==> f.ensures((src[i],), values@[i]),
        {
            values.push(f(v));
        }
        Builder { values, errors: self.errors }
    }
}

} // verus!
