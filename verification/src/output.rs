use vstd::prelude::*;

verus! {

/// A piece of output: text, raw bytes, or a real or a date (given by the
/// bits of its double) that the caller formats the way the function that
/// made the piece documents.
pub enum Piece {
    Text(String),
    Bytes(Vec<u8>),
    Real(u64),
    Date(u64),
}

pub enum Out {
    Text(Seq<char>),
    Bytes(Seq<u8>),
    Real(u64),
    Date(u64),
}

impl View for Piece {
    type V = Out;

    open spec fn view(&self) -> Out {
        match self {
            Piece::Text(s) => Out::Text(s@),
            Piece::Bytes(b) => Out::Bytes(b@),
            Piece::Real(r) => Out::Real(*r),
            Piece::Date(d) => Out::Date(*d),
        }
    }
}

pub open spec fn outs(v: Seq<Piece>) -> Seq<Out> {
    Seq::new(v.len(), |i: int| v[i]@)
}

} // verus!
