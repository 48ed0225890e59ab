//! Streaming computation of S3-style multipart ETags.
//!
//! An ETag is either the plain MD5 digest of a whole byte stream (the simple
//! form) or, for streams cut into fixed-size parts, the MD5 digest of the
//! concatenation of the per-part digests, suffixed with the part count (the
//! multipart form). The [`ETagHasherMulti`] accumulator consumes a stream in
//! any chunking the caller chooses and decides at finalization which form
//! applies.

mod engine;
mod etag;
mod hasher;
mod size;

pub use engine::md5_of;
pub use engine::Md5Hasher;
pub use engine::OpensslMd5;
pub use engine::SoftwareMd5;
pub use etag::dec_bytes_of;
pub use etag::etag_ascii;
pub use etag::etag_chars;
pub use etag::hex_bytes_of;
pub use etag::hex_digit;
pub use etag::hex_val;
pub use etag::lemma_from_digest;
pub use etag::lemma_hex_round_trip;
pub use etag::lemma_parse_hex_case_insensitive;
pub use etag::lemma_render_parse_round_trip;
pub use etag::parse_hex_digest;
pub use etag::parse_hex_spec;
pub use etag::same_hex_letter;
pub use etag::ETag;
pub use etag::ETagModel;
pub use hasher::etag_of;
pub use hasher::lemma_etag_below_one_part;
pub use hasher::lemma_etag_empty;
pub use hasher::lemma_etag_exact_parts;
pub use hasher::lemma_etag_exactly_one_part;
pub use hasher::lemma_etag_partial_tail;
pub use hasher::lemma_etag_partition_independent;
pub use hasher::lemma_multipart_count_at_least_two;
pub use hasher::part_bytes;
pub use hasher::part_digests;
pub use hasher::tail_bytes;
pub use hasher::ETagHasher;
pub use hasher::ETagHasherMulti;
pub use size::dec_value;
pub use size::digits_end;
pub use size::is_digit;
pub use size::parse_chunksize;
pub use size::parse_size_spec;
pub use size::parse_threshold;
pub use size::suffix_unit;
pub use size::SizeError;
