//! Reader for messages without a body.
use vstd::prelude::*;

use crate::http_message::message::ParseSlots;
use crate::io_buffer::{Buffered, BytesReader};

verus! {

/// The reader of a body that is not there.
#[derive(Debug)]
pub struct BodylessBodyReader<I> {
    reader: BytesReader<I>,
    parse_slots: ParseSlots,
}

/// The model of a [`BodylessBodyReader`].
pub struct BodylessView<I> {
    pub reader: Buffered<I>,
    pub slots: nat,
}

impl<I> View for BodylessBodyReader<I> {
    type V = BodylessView<I>;

    closed spec fn view(&self) -> BodylessView<I> {
        BodylessView { reader: self.reader@, slots: self.parse_slots@ }
    }
}

impl<I> BodylessBodyReader<I> {
    /// A reader behind a head without a body.
    pub fn new(reader: BytesReader<I>, parse_slots: ParseSlots) -> (r: Self)
        ensures
            r@ == (BodylessView { reader: reader@, slots: parse_slots@ }),
    {
        Self { reader, parse_slots }
    }

    /// Give back the connection.
    pub fn drain(self) -> (r: (BytesReader<I>, ParseSlots))
        ensures
            r.0@ == self@.reader,
            r.1@ == self@.slots,
    {
        let Self { reader, parse_slots } = self;
        (reader, parse_slots)
    }
}

} // verus!
