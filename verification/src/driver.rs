//! Bundle pipeline driver: one bundle from raw bytes to its outcome.
//!
//! The tag stream is read once, the symbol table is built over the whole
//! stream, and only then are assets materialized. A reader or builder
//! failure is fatal to the bundle: nothing is extracted. Materializer
//! failures are per-asset and live inside the returned outcome.

use vstd::prelude::*;

use crate::materialize::{
    file_set, init_state, lemma_empty_table_all_unregistered, materialize, spec_materialize_run,
    unregistered_failures, AssetKind, BundleOutcome, ExtractedAsset, ExtractedAssetView,
};
use crate::symbols::{
    build_symbol_table, lemma_no_declarations_empty_table, spec_build_table, SymbolError,
};
use crate::tags::{read_tag_stream, spec_read_tag_stream, ReadError, TagView};

verus! {

/// A fault fatal to the whole bundle: an unreadable container, or a
/// declared symbol name shorter than the trimming prefix.
#[derive(Clone, Copy, PartialEq, Eq, Structural, Debug)]
pub enum BundleError {
    MalformedContainer { offset: usize },
    NameTooShort { asset_id: u16 },
}

/// A bundle without a single symbol-class declaration builds the empty
/// table, and its second pass then writes and skips nothing: every binary
/// and bitmap tag records an unregistered-asset failure, in stream order.
pub proof fn lemma_no_declarations_nothing_extracted(
    tags: Seq<TagView>,
    base: Seq<char>,
    files: Seq<(Seq<char>, AssetKind)>,
)
    requires
        forall|i: int|
            0 <= i < tags.len() ==> !((#[trigger] tags[i]) matches TagView::SymbolClassDeclaration {
                ..
            }),
    ensures
        spec_build_table(tags, base) == Ok::<Map<u16, Seq<char>>, u16>(Map::empty()),
        spec_materialize_run(tags, Map::empty(), files).written == Seq::<
            ExtractedAssetView,
        >::empty(),
        spec_materialize_run(tags, Map::empty(), files).skipped == 0,
        spec_materialize_run(tags, Map::empty(), files).failed == unregistered_failures(tags),
{
    lemma_no_declarations_empty_table(tags, base);
    lemma_empty_table_all_unregistered(tags, init_state(file_set(files)));
    assert(Seq::<crate::materialize::AssetFailureView>::empty() + unregistered_failures(tags)
        =~= unregistered_failures(tags));
}

/// Runs the two passes over one bundle: reads the tag stream out of the
/// raw bytes, builds the symbol table against the bundle's base name, and
/// materializes every asset tag against the given directory listing.
/// Succeeds exactly when the container is readable and every declared
/// symbol name is at least as long as the trimming prefix; a failure of
/// either kind aborts the bundle with nothing extracted.
pub fn extract_bundle(
    bytes: &Vec<u8>,
    base_name: &str,
    existing: &Vec<(String, AssetKind)>,
) -> (r: Result<(Vec<ExtractedAsset>, BundleOutcome), BundleError>)
    ensures
        r is Ok <==> (spec_read_tag_stream(bytes@) is Ok && spec_build_table(
            spec_read_tag_stream(bytes@)->Ok_0,
            base_name@,
        ) is Ok),
        r matches Ok((assets, outcome)) ==> ({
            let tags = spec_read_tag_stream(bytes@)->Ok_0;
            let table = spec_build_table(tags, base_name@).unwrap();
            let fin = spec_materialize_run(tags, table, existing.deep_view());
            &&& assets.deep_view() == fin.written
            &&& outcome.written == assets@.len()
            &&& outcome.written as nat == fin.written.len()
            &&& outcome.skipped as nat == fin.skipped
            &&& outcome.failed.deep_view() == fin.failed
        }),
        r matches Err(BundleError::MalformedContainer { offset }) ==> spec_read_tag_stream(bytes@)
            == Err::<Seq<TagView>, int>(offset as int),
        r matches Err(BundleError::NameTooShort { asset_id }) ==> spec_read_tag_stream(
            bytes@,
        ) is Ok && spec_build_table(spec_read_tag_stream(bytes@)->Ok_0, base_name@) == Err::<
            Map<u16, Seq<char>>,
            u16,
        >(asset_id),
{
    let tags = match read_tag_stream(bytes) {
        Ok(tags) => tags,
        Err(ReadError::MalformedContainer { offset }) => {
            return Err(BundleError::MalformedContainer { offset });
        },
    };
    let table = match build_symbol_table(&tags, base_name) {
        Ok(table) => table,
        Err(SymbolError::NameTooShort { asset_id }) => {
            return Err(BundleError::NameTooShort { asset_id });
        },
    };
    let (assets, outcome) = materialize(&tags, &table, existing);
    Ok((assets, outcome))
}

} // verus!
