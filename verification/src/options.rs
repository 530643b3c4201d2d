//! Option negotiation: which of the options that a request carries the server
//! takes up, and what it answers.

use crate::decimal::{
    decimal_digits, is_digit, lemma_decimal_digits, lemma_decimal_round_trip, render_decimal,
};
use crate::packet::{pairs_nul_free, pairs_view};
use crate::types::{blksize_key, tsize_key, Options};
use crate::wire::nul_free;
use vstd::prelude::*;

verus! {

/// The block size of a transfer for which none was negotiated.
pub const DEFAULT_BLOCK_SIZE: usize = 512;

/// The outcome of a negotiation: the recognised options with their values.
#[derive(Debug, Clone, Copy, PartialEq, Eq)]
pub struct NegotiatedOptions {
    /// The largest payload of a data packet, where the client asked for one.
    pub blksize: Option<usize>,
    /// The size of the file as the client gave it; kept, and not acted on.
    pub tsize: Option<usize>,
}

impl NegotiatedOptions {
    /// Nothing negotiated.
    pub open spec fn nothing() -> NegotiatedOptions {
        NegotiatedOptions { blksize: None, tsize: None }
    }

    /// A block size, where there is one, is positive.
    pub open spec fn wf(self) -> bool {
        self.blksize != Some(0usize)
    }

    /// The outcome once one more option has been read. A later value of an
    /// option replaces an earlier one, and an unknown option changes nothing.
    pub open spec fn with(self, option: Options) -> NegotiatedOptions {
        match option {
            Options::Blksize(size) => NegotiatedOptions { blksize: Some(size), tsize: self.tsize },
            Options::Tsize(size) => NegotiatedOptions { blksize: self.blksize, tsize: Some(size) },
            Options::Unknown => self,
        }
    }

    /// Whether any option was taken up, so that the server owes the client
    /// an option acknowledgement.
    pub open spec fn any(self) -> bool {
        self.blksize is Some || self.tsize is Some
    }

    /// The block size of the transfer: the negotiated one, or 512.
    pub open spec fn block_size_spec(self) -> usize {
        match self.blksize {
            Some(size) => size,
            None => DEFAULT_BLOCK_SIZE,
        }
    }

    /// The options that the server acknowledges, as keys and values: the
    /// block size first, then the transfer size, each only if it was
    /// negotiated, each with the value that was taken up.
    pub open spec fn echo(self) -> Seq<(Seq<u8>, Seq<u8>)> {
        let first = match self.blksize {
            Some(size) => seq![(blksize_key(), decimal_digits(size as nat))],
            None => Seq::empty(),
        };
        let second = match self.tsize {
            Some(size) => seq![(tsize_key(), decimal_digits(size as nat))],
            None => Seq::empty(),
        };
        first + second
    }

    /// The block size of the transfer: the negotiated one, or 512.
    pub fn block_size(&self) -> (size: usize)
        ensures
            size == self.block_size_spec(),
    {
        match self.blksize {
            Some(size) => size,
            None => DEFAULT_BLOCK_SIZE,
        }
    }

    /// Whether no option was taken up.
    pub fn is_empty(&self) -> (empty: bool)
        ensures
            empty == !self.any(),
    {
        self.blksize.is_none() && self.tsize.is_none()
    }

    /// The options to list in an option acknowledgement.
    pub fn acknowledgement(&self) -> (pairs: Vec<(Vec<u8>, Vec<u8>)>)
        ensures
            pairs_view(pairs@) == self.echo(),
    {
        let mut pairs: Vec<(Vec<u8>, Vec<u8>)> = Vec::new();
        if let Some(size) = self.blksize {
            let mut key: Vec<u8> = Vec::new();
            key.push(0x62);
            key.push(0x6c);
            key.push(0x6b);
            key.push(0x73);
            key.push(0x69);
            key.push(0x7a);
            key.push(0x65);
            assert(key@ =~= blksize_key());
            pairs.push((key, render_decimal(size)));
        }
        if let Some(size) = self.tsize {
            let mut key: Vec<u8> = Vec::new();
            key.push(0x74);
            key.push(0x73);
            key.push(0x69);
            key.push(0x7a);
            key.push(0x65);
            assert(key@ =~= tsize_key());
            pairs.push((key, render_decimal(size)));
        }
        assert(pairs_view(pairs@) =~= self.echo());
        pairs
    }
}

/// The outcome of reading the options of a request in their order.
pub open spec fn negotiate_spec(pairs: Seq<(Seq<u8>, Seq<u8>)>) -> NegotiatedOptions
    decreases pairs.len(),
{
    if pairs.len() == 0 {
        NegotiatedOptions::nothing()
    } else {
        negotiate_spec(pairs.drop_last()).with(Options::of_pair(pairs.last().0, pairs.last().1))
    }
}

/// A negotiated block size is never zero.
pub proof fn lemma_negotiate_wf(pairs: Seq<(Seq<u8>, Seq<u8>)>)
    ensures
        negotiate_spec(pairs).wf(),
    decreases pairs.len(),
{
    if pairs.len() > 0 {
        lemma_negotiate_wf(pairs.drop_last());
    }
}

/// Reading two lists of options one after the other is reading the second
/// on top of the outcome of the first.
pub proof fn lemma_negotiate_concat(
    before: Seq<(Seq<u8>, Seq<u8>)>,
    after: Seq<(Seq<u8>, Seq<u8>)>,
)
    ensures
        after.len() == 0 ==> negotiate_spec(before + after) == negotiate_spec(before),
        after.len() > 0 ==> negotiate_spec(before + after) == negotiate_spec(
            before + after.drop_last(),
        ).with(Options::of_pair(after.last().0, after.last().1)),
{
    if after.len() == 0 {
        assert(before + after =~= before);
    } else {
        assert((before + after).drop_last() =~= before + after.drop_last());
    }
}

/// An option that is not recognised, wherever it stands in a request, does
/// not change what is negotiated.
pub proof fn lemma_unknown_option_ignored(
    before: Seq<(Seq<u8>, Seq<u8>)>,
    pair: (Seq<u8>, Seq<u8>),
    after: Seq<(Seq<u8>, Seq<u8>)>,
)
    requires
        Options::of_pair(pair.0, pair.1) == Options::Unknown,
    ensures
        negotiate_spec(before + seq![pair] + after) == negotiate_spec(before + after),
    decreases after.len(),
{
    if after.len() == 0 {
        assert(before + seq![pair] + after =~= before.push(pair));
        assert(before.push(pair).drop_last() =~= before);
        assert(before + after =~= before);
    } else {
        lemma_unknown_option_ignored(before, pair, after.drop_last());
        lemma_negotiate_concat(before + seq![pair], after);
        lemma_negotiate_concat(before, after);
    }
}

/// What the server acknowledges holds no zero byte, and a client that reads
/// it back negotiates exactly what the server took up.
pub proof fn lemma_echo_round_trip(options: NegotiatedOptions)
    requires
        options.wf(),
    ensures
        pairs_nul_free(options.echo()),
        negotiate_spec(options.echo()) == options,
{
    let echo = options.echo();
    assert(nul_free(blksize_key()));
    assert(nul_free(tsize_key()));
    assert(blksize_key() != tsize_key()) by {
        assert(blksize_key().len() != tsize_key().len());
    }
    if let Some(size) = options.blksize {
        lemma_decimal_digits(size as nat);
        lemma_decimal_round_trip(size);
    }
    if let Some(size) = options.tsize {
        lemma_decimal_digits(size as nat);
        lemma_decimal_round_trip(size);
    }
    assert(pairs_nul_free(echo)) by {
        assert forall|i: int| 0 <= i < echo.len() implies nul_free((#[trigger] echo[i]).0)
            && nul_free(echo[i].1) by {
            let digits = echo[i].1;
            assert forall|j: int| 0 <= j < digits.len() implies digits[j] != 0 by {
                assert(is_digit(digits[j]));
            }
        }
    }
    reveal_with_fuel(negotiate_spec, 3);
    if echo.len() == 2 {
        assert(echo.drop_last() =~= seq![echo[0]]);
        assert(echo.drop_last().drop_last() =~= Seq::<(Seq<u8>, Seq<u8>)>::empty());
    } else if echo.len() == 1 {
        assert(echo.drop_last() =~= Seq::<(Seq<u8>, Seq<u8>)>::empty());
    }
}

/// Reads the options of a request in their order and keeps the recognised
/// ones; of an option given twice the later value stands.
pub fn negotiate(pairs: &Vec<(Vec<u8>, Vec<u8>)>) -> (options: NegotiatedOptions)
    ensures
        options == negotiate_spec(pairs_view(pairs@)),
        options.wf(),
{
    let ghost all = pairs_view(pairs@);
    let mut options = NegotiatedOptions { blksize: None, tsize: None };
    let mut i: usize = 0;
    assert(all.take(0) =~= Seq::<(Seq<u8>, Seq<u8>)>::empty());
    while i < pairs.len()
        invariant
            i <= pairs.len(),
            all == pairs_view(pairs@),
            options == negotiate_spec(all.take(i as int)),
        decreases pairs.len() - i,
    {
        assert(all.take(i + 1).drop_last() =~= all.take(i as int));
        match Options::parse(pairs[i].0.as_slice(), pairs[i].1.as_slice()) {
            Options::Blksize(size) => {
                options.blksize = Some(size);
            },
            Options::Tsize(size) => {
                options.tsize = Some(size);
            },
            Options::Unknown => {},
        }
        i += 1;
    }
    assert(all.take(pairs.len() as int) =~= all);
    proof {
        lemma_negotiate_wf(all);
    }
    options
}

} // verus!
