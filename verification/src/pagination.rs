//! Pagination over a listing: an index and a limit, with an optional
//! explicit offset that overrides the computed one.

use vstd::prelude::*;

verus! {

#[derive(Clone, Copy, Debug)]
pub struct Pagination {
    index: i64,
    limit: i64,
    offset: Option<i64>,
}

impl Pagination {
    /// The offset this pagination denotes: the explicit one if set,
    /// else index times limit.
    pub open spec fn spec_offset(&self) -> int {
        match self.spec_explicit_offset() {
            Option::Some(v) => v as int,
            Option::None => self.spec_index() * self.spec_limit(),
        }
    }

    pub closed spec fn spec_index(&self) -> i64 {
        self.index
    }

    pub closed spec fn spec_limit(&self) -> i64 {
        self.limit
    }

    pub closed spec fn spec_explicit_offset(&self) -> Option<i64> {
        self.offset
    }

    /// The offset is representable: either it was set explicitly, or
    /// index times limit fits the machine integer.
    pub open spec fn offset_in_range(&self) -> bool {
        self.spec_explicit_offset() is Some || (i64::MIN <= self.spec_index() * self.spec_limit()
            <= i64::MAX)
    }

    pub fn new(index: i64, limit: i64) -> (r: Self)
        ensures
            r.spec_index() == index,
            r.spec_limit() == limit,
            r.spec_explicit_offset() is None,
    {
        Pagination { index, limit, offset: Option::None }
    }

    pub fn new_with_offset(offset: i64, limit: i64) -> (r: Self)
        ensures
            r.spec_index() == 0,
            r.spec_limit() == limit,
            r.spec_explicit_offset() == Option::Some(offset),
    {
        Pagination { index: 0, offset: Option::Some(offset), limit }
    }

    /// Clamp a negative index or limit to zero.
    pub fn correct(self) -> (r: Self)
        ensures
            r.spec_index() == if self.spec_index() < 0 {
                0
            } else {
                self.spec_index()
            },
            r.spec_limit() == if self.spec_limit() < 0 {
                0
            } else {
                self.spec_limit()
            },
            r.spec_explicit_offset() == self.spec_explicit_offset(),
    {
        let mut p = self;
        if p.index < 0 {
            p.index = 0;
        }
        if p.limit < 0 {
            p.limit = 0;
        }
        p
    }

    /// The pagination that takes everything.
    pub fn max() -> (r: Self)
        ensures
            r.spec_index() == 0,
            r.spec_limit() == i64::MAX,
            r.spec_explicit_offset() is None,
            r.spec_offset() == 0,
    {
        Pagination { index: 0, limit: i64::MAX, offset: Option::None }
    }

    pub fn offset(&self) -> (r: i64)
        requires
            self.offset_in_range(),
        ensures
            r == self.spec_offset(),
    {
        match self.offset {
            Option::Some(v) => v,
            Option::None => self.index * self.limit,
        }
    }

    pub fn limit(&self) -> (r: i64)
        ensures
            r == self.spec_limit(),
    {
        self.limit
    }

    /// Pin the offset explicitly, overriding the computed one.
    pub fn set_offset(&mut self, v: i64) -> (r: &Self)
        ensures
            final(self).spec_index() == old(self).spec_index(),
            final(self).spec_limit() == old(self).spec_limit(),
            final(self).spec_explicit_offset() == Option::Some(v),
            *r == *final(self),
    {
        self.offset = Option::Some(v);
        self
    }

    /// Step to the next page.
    pub fn next(&mut self) -> (r: &Self)
        requires
            old(self).spec_index() < i64::MAX,
        ensures
            final(self).spec_index() == old(self).spec_index() + 1,
            final(self).spec_limit() == old(self).spec_limit(),
            final(self).spec_explicit_offset() == old(self).spec_explicit_offset(),
            *r == *final(self),
    {
        self.index = self.index + 1;
        self
    }

    /// Whether this page still lies before the end of a listing of
    /// `count` entries.
    pub fn contain(&mut self, count: i64) -> (r: bool)
        requires
            old(self).offset_in_range(),
        ensures
            *final(self) == *old(self),
            r == (old(self).spec_offset() < count),
    {
        self.offset() < count
    }
}

} // verus!
