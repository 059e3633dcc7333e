//! Step-by-step construction of a filter.

use crate::bloom_filter::{bit_count_for, BloomFilter, CompressMode, Filter};
use crate::decoder::decodable::Decodable;
use crate::decoder::impls::decoded_filter;
use crate::error::BloomFilterError;
use vstd::prelude::*;

verus! {

/// A filter in the making.
pub struct BloomFilterBuilder {
    bloom_filter: BloomFilter,
}

impl View for BloomFilterBuilder {
    type V = Filter;

    /// The filter that the builder would build.
    closed spec fn view(&self) -> Filter {
        self.bloom_filter@
    }
}

impl BloomFilterBuilder {
    /// Starts an empty filter for `capacity` items, whose bit array will be
    /// compressed when the filter is serialized. `InvalidConfig` where
    /// `capacity` is zero or asks for more bits than can be addressed.
    pub fn new(capacity: usize) -> (result: Result<Self, BloomFilterError>)
        ensures
            match result {
                Ok(builder) => capacity > 0 && bit_count_for(capacity as nat) <= usize::MAX
                    && builder@ == (Filter {
                    compress_mode: CompressMode::Lzw,
                    ..Filter::sized_for(capacity as nat)
                }),
                Err(e) => e == BloomFilterError::InvalidConfig && (capacity == 0 || bit_count_for(
                    capacity as nat,
                ) > usize::MAX),
            },
    {
        let mut bloom_filter = match BloomFilter::new(capacity) {
            Ok(bloom_filter) => bloom_filter,
            Err(e) => {
                return Err(e);
            },
        };
        bloom_filter.set_compress_mode(CompressMode::Lzw);
        Ok(Self { bloom_filter })
    }

    /// Leaves the bit array uncompressed when the filter is serialized.
    pub fn no_compress(self) -> (builder: Self)
        ensures
            builder@ == (Filter { compress_mode: CompressMode::Uncompressed, ..self@ }),
    {
        let mut builder = self;
        builder.bloom_filter.set_compress_mode(CompressMode::Uncompressed);
        builder
    }

    /// The filter as configured.
    pub fn build(self) -> (bloom_filter: BloomFilter)
        ensures
            bloom_filter@ == self@,
    {
        self.bloom_filter
    }

    /// The filter that the persisted `bytes` hold.
    pub fn load(bytes: &[u8]) -> (result: Result<BloomFilter, BloomFilterError>)
        ensures
            match result {
                Ok(bloom_filter) => decoded_filter(bytes@) == Ok::<Filter, BloomFilterError>(
                    bloom_filter@,
                ),
                Err(e) => decoded_filter(bytes@) == Err::<Filter, BloomFilterError>(e),
            },
    {
        BloomFilter::decode(bytes)
    }
}

} // verus!
