//! An iterator adapter that is always one item ahead: the next item and its
//! index are known before it is consumed.
use vstd::prelude::*;
use vstd::std_specs::iter::IteratorSpec;

verus! {

/// Like a peekable iterator, except that the lookahead item is already
/// taken from the underlying iterator.
pub struct AdvancedIter<T: Iterator> {
    iter: T,
    peek_item: Option<T::Item>,
    peek_pos: Option<usize>,
    current_pos: Option<usize>,
}

impl<T: Iterator> AdvancedIter<T> {
    /// The underlying iterator, one item ahead of the adapter.
    pub closed spec fn inner(&self) -> T {
        self.iter
    }

    /// The lookahead item.
    pub closed spec fn lookahead(&self) -> Option<T::Item> {
        self.peek_item
    }

    /// Index of the lookahead item.
    pub closed spec fn peek_index(&self) -> Option<usize> {
        self.peek_pos
    }

    /// Index of the item returned last.
    pub closed spec fn current_index(&self) -> Option<usize> {
        self.current_pos
    }

    /// Takes the first item of `iter` as the lookahead.
    pub fn new(iter: T) -> (r: AdvancedIter<T>)
        requires
            iter.obeys_prophetic_iter_laws(),
        ensures
            r.inner().obeys_prophetic_iter_laws(),
            iter.remaining().len() > 0 ==> {
                &&& r.lookahead() == Some(iter.remaining()[0])
                &&& r.inner().remaining() == iter.remaining().drop_first()
            },
            iter.remaining().len() == 0 ==> {
                &&& r.lookahead() is None
                &&& r.inner().remaining().len() == 0
            },
            r.peek_index() == Some(0usize),
            r.current_index() is None,
    {
        let mut iter = iter;
        let peek_item = iter.next();
        AdvancedIter { iter, peek_item, peek_pos: Some(0), current_pos: None }
    }

    /// Index of the lookahead item.
    pub fn peek_pos(&self) -> (r: Option<usize>)
        ensures
            r == self.peek_index(),
    {
        self.peek_pos
    }

    /// Index of the item returned last.
    pub fn current_pos(&self) -> (r: Option<usize>)
        ensures
            r == self.current_index(),
    {
        self.current_pos
    }

    /// The lookahead item, without consuming it.
    pub fn peek_item(&self) -> (r: Option<&T::Item>)
        ensures
            r == (match self.lookahead() {
                Some(x) => Some(&x),
                None => None::<&T::Item>,
            }),
    {
        self.peek_item.as_ref()
    }

    /// The lookahead item, without consuming it.
    pub fn peek(&self) -> (r: Option<&T::Item>)
        ensures
            r == (match self.lookahead() {
                Some(x) => Some(&x),
                None => None::<&T::Item>,
            }),
    {
        self.peek_item.as_ref()
    }

    /// Returns the lookahead item and takes the next one from the underlying
    /// iterator.
    pub fn next(&mut self) -> (r: Option<T::Item>)
        requires
            old(self).inner().obeys_prophetic_iter_laws(),
            old(self).peek_index() matches Some(p) ==> p < usize::MAX,
            old(self).peek_index() is None ==> old(self).inner().remaining().len() == 0,
        ensures
            r == old(self).lookahead(),
            final(self).current_index() == old(self).peek_index(),
            final(self).inner().obeys_prophetic_iter_laws(),
            old(self).inner().remaining().len() > 0 ==> {
                &&& final(self).lookahead() == Some(old(self).inner().remaining()[0])
                &&& final(self).inner().remaining() == old(self).inner().remaining().drop_first()
                &&& final(self).peek_index() == Some((old(self).peek_index()->0 + 1) as usize)
            },
            old(self).inner().remaining().len() == 0 ==> {
                &&& final(self).lookahead() is None
                &&& final(self).peek_index() is None
                &&& final(self).inner().remaining().len() == 0
            },
    {
        let res = self.peek_item.take();
        self.current_pos = self.peek_pos;
        match self.iter.next() {
            Some(item) => {
                let p = match self.peek_pos {
                    Some(p) => p,
                    None => 0,
                };
                self.peek_pos = Some(p + 1);
                self.peek_item = Some(item);
            },
            None => {
                self.peek_pos = None;
                self.peek_item = None;
            },
        }
        res
    }
}

} // verus!
