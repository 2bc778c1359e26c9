//! Asset materializer: the second pass over the tag sequence.
//!
//! Each binary-data or bitmap tag is resolved through the symbol table and
//! turned into an output file value, skipped when that file already exists,
//! or recorded as a per-asset failure; other tags are ignored. The pass
//! never aborts a bundle: every failure is data in the outcome.

use vstd::prelude::*;

use crate::codec::{spec_decode_encode, decode_and_encode, CodecError};
use crate::symbols::SymbolTable;
use crate::tags::{vec_slice, TagRecord, TagView};

verus! {

/// The file kind of a materialized asset, and so its extension.
#[derive(Clone, Copy, PartialEq, Eq, Structural, Debug)]
pub enum AssetKind {
    /// A raw binary payload, written as an `.xml` file.
    Xml,
    /// An encoded raster image, written as a `.png` file.
    Png,
}

impl DeepView for AssetKind {
    type V = AssetKind;

    open spec fn deep_view(&self) -> AssetKind {
        *self
    }
}

impl AssetKind {
    /// The file extension this kind is written under.
    pub fn extension(&self) -> (r: &'static str)
        ensures
            *self == AssetKind::Xml ==> r@ == "xml"@,
            *self == AssetKind::Png ==> r@ == "png"@,
    {
        match self {
            AssetKind::Xml => "xml",
            AssetKind::Png => "png",
        }
    }
}

/// Which kind of asset tag a failure was recorded against.
#[derive(Clone, Copy, PartialEq, Eq, Structural, Debug)]
pub enum TagKind {
    Binary,
    Bitmap,
}

/// Why one asset could not be materialized.
pub enum FailureReason {
    /// Its id has no entry in the symbol table; a capped sample of the raw
    /// bytes is kept for diagnostics.
    UnregisteredAsset { sample_bytes: Vec<u8> },
    /// Its packed pixel data or its dimensions were refused by the codec.
    Codec { error: CodecError },
}

/// The mathematical shape of a failure reason.
pub enum FailureReasonView {
    UnregisteredAsset { sample_bytes: Seq<u8> },
    Codec { error: CodecError },
}

impl DeepView for FailureReason {
    type V = FailureReasonView;

    open spec fn deep_view(&self) -> FailureReasonView {
        match self {
            FailureReason::UnregisteredAsset { sample_bytes } => FailureReasonView::UnregisteredAsset {
                sample_bytes: sample_bytes@,
            },
            FailureReason::Codec { error } => FailureReasonView::Codec { error: *error },
        }
    }
}

/// One recorded per-asset failure.
pub struct AssetFailure {
    pub asset_id: u16,
    pub tag_kind: TagKind,
    pub reason: FailureReason,
}

/// The mathematical shape of a recorded failure.
pub struct AssetFailureView {
    pub asset_id: u16,
    pub tag_kind: TagKind,
    pub reason: FailureReasonView,
}

impl DeepView for AssetFailure {
    type V = AssetFailureView;

    open spec fn deep_view(&self) -> AssetFailureView {
        AssetFailureView {
            asset_id: self.asset_id,
            tag_kind: self.tag_kind,
            reason: self.reason.deep_view(),
        }
    }
}

/// A materialized output: a name, the kind that fixes its extension, and
/// the exact bytes to write.
pub struct ExtractedAsset {
    pub name: String,
    pub kind: AssetKind,
    pub bytes: Vec<u8>,
}

/// The mathematical shape of a materialized output.
pub struct ExtractedAssetView {
    pub name: Seq<char>,
    pub kind: AssetKind,
    pub bytes: Seq<u8>,
}

impl DeepView for ExtractedAsset {
    type V = ExtractedAssetView;

    open spec fn deep_view(&self) -> ExtractedAssetView {
        ExtractedAssetView { name: self.name@, kind: self.kind, bytes: self.bytes@ }
    }
}

/// The per-bundle result: how many assets were written and skipped, and
/// every per-asset failure with its reason, in stream order.
pub struct BundleOutcome {
    pub written: usize,
    pub skipped: usize,
    pub failed: Vec<AssetFailure>,
}

/// The capped diagnostic sample of a payload: its first hundred bytes.
pub open spec fn sample_of(payload: Seq<u8>) -> Seq<u8> {
    if payload.len() <= 100 {
        payload
    } else {
        payload.subrange(0, 100)
    }
}

fn sample_prefix(payload: &Vec<u8>) -> (out: Vec<u8>)
    ensures
        out@ == sample_of(payload@),
{
    if payload.len() <= 100 {
        let out = vec_slice(payload, 0, payload.len());
        proof {
            assert(payload@.subrange(0, payload@.len() as int) =~= payload@);
        }
        out
    } else {
        vec_slice(payload, 0, 100)
    }
}

/// The set of files a listing stands for.
pub open spec fn file_set(files: Seq<(Seq<char>, AssetKind)>) -> Set<(Seq<char>, AssetKind)> {
    Set::new(|p: (Seq<char>, AssetKind)| files.contains(p))
}

proof fn lemma_file_set_push(files: Seq<(Seq<char>, AssetKind)>, p: (Seq<char>, AssetKind))
    ensures
        file_set(files.push(p)) == file_set(files).insert(p),
{
    assert forall|q: (Seq<char>, AssetKind)|
        file_set(files.push(p)).contains(q) <==> file_set(files).insert(p).contains(q) by {
        if files.push(p).contains(q) {
            let i = choose|i: int| 0 <= i < files.push(p).len() && files.push(p)[i] == q;
            if i < files.len() {
                assert(files[i] == q);
            }
        }
        if files.contains(q) {
            let i = choose|i: int| 0 <= i < files.len() && files[i] == q;
            assert(files.push(p)[i] == q);
        }
        if q == p {
            assert(files.push(p)[files.len() as int] == q);
        }
    }
    assert(file_set(files.push(p)) =~= file_set(files).insert(p));
}

/// The materializer's running state: what has been produced so far and
/// which files are present in the output directory.
pub struct MatState {
    pub written: Seq<ExtractedAssetView>,
    pub skipped: nat,
    pub failed: Seq<AssetFailureView>,
    pub present: Set<(Seq<char>, AssetKind)>,
}

/// A state with empty tallies over a given set of present files.
pub open spec fn init_state(present: Set<(Seq<char>, AssetKind)>) -> MatState {
    MatState { written: Seq::empty(), skipped: 0, failed: Seq::empty(), present }
}

/// What one tag does to the materializer's state. An asset tag whose id is
/// not in the table records an unregistered failure with a capped byte
/// sample; one whose target file is already present records a skip; a
/// bitmap whose codec path fails records that failure; otherwise the asset
/// is written and its file becomes present. Tags of other kinds change
/// nothing.
pub open spec fn spec_step(t: TagView, table: Map<u16, Seq<char>>, st: MatState) -> MatState {
    match t {
        TagView::BinaryDataAsset { asset_id, payload } => {
            if !table.contains_key(asset_id) {
                MatState {
                    failed: st.failed.push(
                        AssetFailureView {
                            asset_id,
                            tag_kind: TagKind::Binary,
                            reason: FailureReasonView::UnregisteredAsset {
                                sample_bytes: sample_of(payload),
                            },
                        },
                    ),
                    ..st
                }
            } else if st.present.contains((table[asset_id], AssetKind::Xml)) {
                MatState { skipped: st.skipped + 1, ..st }
            } else {
                MatState {
                    written: st.written.push(
                        ExtractedAssetView {
                            name: table[asset_id],
                            kind: AssetKind::Xml,
                            bytes: payload,
                        },
                    ),
                    present: st.present.insert((table[asset_id], AssetKind::Xml)),
                    ..st
                }
            }
        },
        TagView::LosslessBitmapAsset { asset_id, width, height, pixel_format, packed_data } => {
            if !table.contains_key(asset_id) {
                MatState {
                    failed: st.failed.push(
                        AssetFailureView {
                            asset_id,
                            tag_kind: TagKind::Bitmap,
                            reason: FailureReasonView::UnregisteredAsset {
                                sample_bytes: sample_of(packed_data),
                            },
                        },
                    ),
                    ..st
                }
            } else if st.present.contains((table[asset_id], AssetKind::Png)) {
                MatState { skipped: st.skipped + 1, ..st }
            } else {
                match spec_decode_encode(packed_data, pixel_format, width, height) {
                    Err(e) => MatState {
                        failed: st.failed.push(
                            AssetFailureView {
                                asset_id,
                                tag_kind: TagKind::Bitmap,
                                reason: FailureReasonView::Codec { error: e },
                            },
                        ),
                        ..st
                    },
                    Ok(bytes) => MatState {
                        written: st.written.push(
                            ExtractedAssetView {
                                name: table[asset_id],
                                kind: AssetKind::Png,
                                bytes,
                            },
                        ),
                        present: st.present.insert((table[asset_id], AssetKind::Png)),
                        ..st
                    },
                }
            }
        },
        _ => st,
    }
}

/// The whole pass folded over the tag sequence, front to back.
pub open spec fn spec_materialize(tags: Seq<TagView>, table: Map<u16, Seq<char>>, st: MatState) -> MatState
    decreases tags.len(),
{
    if tags.len() == 0 {
        st
    } else {
        spec_materialize(
            tags.subrange(1, tags.len() as int),
            table,
            spec_step(tags[0], table, st),
        )
    }
}

/// The pass over a tag sequence against a table, starting from a directory
/// listing with nothing yet produced.
pub open spec fn spec_materialize_run(
    tags: Seq<TagView>,
    table: Map<u16, Seq<char>>,
    files: Seq<(Seq<char>, AssetKind)>,
) -> MatState {
    spec_materialize(tags, table, init_state(file_set(files)))
}

/// One step only ever adds to the set of present files.
proof fn lemma_step_present_monotone(t: TagView, table: Map<u16, Seq<char>>, st: MatState)
    ensures
        st.present.subset_of(spec_step(t, table, st).present),
{
}

/// The whole pass only ever adds to the set of present files.
pub proof fn lemma_present_monotone(tags: Seq<TagView>, table: Map<u16, Seq<char>>, st: MatState)
    ensures
        st.present.subset_of(spec_materialize(tags, table, st).present),
    decreases tags.len(),
{
    if tags.len() > 0 {
        lemma_step_present_monotone(tags[0], table, st);
        lemma_present_monotone(tags.subrange(1, tags.len() as int), table, spec_step(tags[0], table, st));
    }
}

/// One step from a state with empty tallies does the same thing as from
/// any state with the same present files; the tallies just ride along.
proof fn lemma_step_delta(t: TagView, table: Map<u16, Seq<char>>, st: MatState)
    ensures
        ({
            let st1 = spec_step(t, table, st);
            let z1 = spec_step(t, table, init_state(st.present));
            &&& st1.present == z1.present
            &&& st1.written == st.written + z1.written
            &&& st1.skipped == st.skipped + z1.skipped
            &&& st1.failed == st.failed + z1.failed
        }),
{
    let st1 = spec_step(t, table, st);
    let z1 = spec_step(t, table, init_state(st.present));
    assert(st1.written =~= st.written + z1.written);
    assert(st1.failed =~= st.failed + z1.failed);
}

/// A pass from any state is a pass from the empty tallies over the same
/// present files, appended to what the state already held.
pub proof fn lemma_run_delta(tags: Seq<TagView>, table: Map<u16, Seq<char>>, st: MatState)
    ensures
        ({
            let fin = spec_materialize(tags, table, st);
            let g = spec_materialize(tags, table, init_state(st.present));
            &&& fin.present == g.present
            &&& fin.written == st.written + g.written
            &&& fin.skipped == st.skipped + g.skipped
            &&& fin.failed == st.failed + g.failed
        }),
    decreases tags.len(),
{
    let fin = spec_materialize(tags, table, st);
    let g = spec_materialize(tags, table, init_state(st.present));
    if tags.len() == 0 {
        assert(fin.written =~= st.written + g.written);
        assert(fin.failed =~= st.failed + g.failed);
    } else {
        let rest = tags.subrange(1, tags.len() as int);
        let st1 = spec_step(tags[0], table, st);
        let z1 = spec_step(tags[0], table, init_state(st.present));
        lemma_step_delta(tags[0], table, st);
        lemma_run_delta(rest, table, st1);
        lemma_run_delta(rest, table, z1);
        let h = spec_materialize(rest, table, init_state(st1.present));
        assert(init_state(z1.present) == init_state(st1.present));
        assert(fin.written =~= st.written + (z1.written + h.written));
        assert(fin.failed =~= st.failed + (z1.failed + h.failed));
        assert(g.written == z1.written + h.written);
        assert(g.failed == z1.failed + h.failed);
    }
}

/// Running the pass a second time over the directory state the first run
/// left behind writes nothing and leaves the directory as it was: every
/// asset tag is a skip or a failure, together as many as the first run's
/// writes, skips and failures. (A first-run failure whose target file a
/// later tag wrote under the same name turns into a skip; all others
/// recur.)
pub proof fn lemma_materialize_idempotent(
    tags: Seq<TagView>,
    table: Map<u16, Seq<char>>,
    present: Set<(Seq<char>, AssetKind)>,
)
    ensures
        ({
            let f1 = spec_materialize(tags, table, init_state(present));
            let f2 = spec_materialize(tags, table, init_state(f1.present));
            &&& f2.written == Seq::<ExtractedAssetView>::empty()
            &&& f2.skipped + f2.failed.len() == f1.skipped + f1.written.len() + f1.failed.len()
            &&& f2.present == f1.present
        }),
    decreases tags.len(),
{
    let f1 = spec_materialize(tags, table, init_state(present));
    let f2 = spec_materialize(tags, table, init_state(f1.present));
    if tags.len() == 0 {
    } else {
        let rest = tags.subrange(1, tags.len() as int);
        let st1 = spec_step(tags[0], table, init_state(present));
        lemma_run_delta(rest, table, st1);
        let g = spec_materialize(rest, table, init_state(st1.present));
        lemma_materialize_idempotent(rest, table, st1.present);
        let g2 = spec_materialize(rest, table, init_state(g.present));
        lemma_present_monotone(rest, table, st1);
        let st2 = spec_step(tags[0], table, init_state(f1.present));
        lemma_run_delta(rest, table, st2);
        assert(st1.present.subset_of(f1.present));
        assert(st2.present == f1.present && st2.written == Seq::<ExtractedAssetView>::empty()
            && st2.skipped + st2.failed.len() == st1.skipped + st1.written.len()
            + st1.failed.len()) by {
            match tags[0] {
                TagView::BinaryDataAsset { asset_id, payload } => {
                    if table.contains_key(asset_id) && !present.contains(
                        ((table[asset_id], AssetKind::Xml)),
                    ) {
                        assert(st1.present.contains((table[asset_id], AssetKind::Xml)));
                        assert(f1.present.contains((table[asset_id], AssetKind::Xml)));
                        assert(st2.present =~= f1.present);
                    } else {
                        assert(st2.present =~= f1.present);
                    }
                },
                TagView::LosslessBitmapAsset { asset_id, width, height, pixel_format, packed_data } => {
                    if table.contains_key(asset_id) && !present.contains(
                        ((table[asset_id], AssetKind::Png)),
                    ) {
                        if spec_decode_encode(packed_data, pixel_format, width, height) is Ok {
                            assert(st1.present.contains((table[asset_id], AssetKind::Png)));
                            assert(f1.present.contains((table[asset_id], AssetKind::Png)));
                            assert(st2.present =~= f1.present);
                        } else {
                            assert(st2.present =~= f1.present);
                        }
                    } else {
                        assert(st2.present =~= f1.present);
                    }
                },
                _ => {
                    assert(st2.present =~= f1.present);
                },
            }
            assert(st2.written =~= Seq::<ExtractedAssetView>::empty());
        }
        assert(g2 == spec_materialize(rest, table, init_state(st2.present)));
        assert(f2.written =~= Seq::<ExtractedAssetView>::empty());
        assert(f2.skipped == st2.skipped + g2.skipped);
        assert(f2.failed.len() == st2.failed.len() + g2.failed.len());
        assert(f1.skipped + f1.written.len() + f1.failed.len() == st1.skipped + g.skipped
            + st1.written.len() + g.written.len() + st1.failed.len() + g.failed.len());
    }
}

/// When the first run records no failure, the second run is skips alone:
/// as many as the first run's writes and skips together, with no failure
/// and nothing written.
pub proof fn lemma_second_run_all_skips(
    tags: Seq<TagView>,
    table: Map<u16, Seq<char>>,
    present: Set<(Seq<char>, AssetKind)>,
)
    requires
        spec_materialize(tags, table, init_state(present)).failed == Seq::<
            AssetFailureView,
        >::empty(),
    ensures
        ({
            let f1 = spec_materialize(tags, table, init_state(present));
            let f2 = spec_materialize(tags, table, init_state(f1.present));
            &&& f2.written == Seq::<ExtractedAssetView>::empty()
            &&& f2.failed == Seq::<AssetFailureView>::empty()
            &&& f2.skipped == f1.skipped + f1.written.len()
            &&& f2.present == f1.present
        }),
{
    let f1 = spec_materialize(tags, table, init_state(present));
    let f2 = spec_materialize(tags, table, init_state(f1.present));
    lemma_materialize_idempotent(tags, table, present);
    lemma_no_failures_recur(tags, table, present);
}

/// A second run records no more failures than the first: a failure in the
/// rerun would have failed the first time as well.
proof fn lemma_no_failures_recur(
    tags: Seq<TagView>,
    table: Map<u16, Seq<char>>,
    present: Set<(Seq<char>, AssetKind)>,
)
    requires
        spec_materialize(tags, table, init_state(present)).failed == Seq::<
            AssetFailureView,
        >::empty(),
    ensures
        spec_materialize(
            tags,
            table,
            init_state(spec_materialize(tags, table, init_state(present)).present),
        ).failed == Seq::<AssetFailureView>::empty(),
    decreases tags.len(),
{
    let f1 = spec_materialize(tags, table, init_state(present));
    let f2 = spec_materialize(tags, table, init_state(f1.present));
    if tags.len() == 0 {
    } else {
        let rest = tags.subrange(1, tags.len() as int);
        let st1 = spec_step(tags[0], table, init_state(present));
        lemma_run_delta(rest, table, st1);
        let g = spec_materialize(rest, table, init_state(st1.present));
        assert(st1.failed =~= Seq::<AssetFailureView>::empty() && g.failed =~= Seq::<
            AssetFailureView,
        >::empty()) by {
            assert(f1.failed == st1.failed + g.failed);
            assert(st1.failed.len() == 0 && g.failed.len() == 0);
        }
        lemma_no_failures_recur(rest, table, st1.present);
        let g2 = spec_materialize(rest, table, init_state(g.present));
        lemma_present_monotone(rest, table, st1);
        let st2 = spec_step(tags[0], table, init_state(f1.present));
        lemma_run_delta(rest, table, st2);
        assert(st2.present == f1.present && st2.failed == Seq::<AssetFailureView>::empty()) by {
            match tags[0] {
                TagView::BinaryDataAsset { asset_id, payload } => {
                    if table.contains_key(asset_id) && !present.contains(
                        ((table[asset_id], AssetKind::Xml)),
                    ) {
                        assert(st1.present.contains((table[asset_id], AssetKind::Xml)));
                        assert(f1.present.contains((table[asset_id], AssetKind::Xml)));
                        assert(st2.present =~= f1.present);
                    } else {
                        assert(st2.present =~= f1.present);
                    }
                },
                TagView::LosslessBitmapAsset { asset_id, width, height, pixel_format, packed_data } => {
                    if table.contains_key(asset_id) && !present.contains(
                        ((table[asset_id], AssetKind::Png)),
                    ) {
                        assert(spec_decode_encode(packed_data, pixel_format, width, height) is Ok);
                        assert(st1.present.contains((table[asset_id], AssetKind::Png)));
                        assert(f1.present.contains((table[asset_id], AssetKind::Png)));
                        assert(st2.present =~= f1.present);
                    } else {
                        assert(st2.present =~= f1.present);
                    }
                },
                _ => {
                    assert(st2.present =~= f1.present);
                },
            }
            assert(st2.failed =~= Seq::<AssetFailureView>::empty());
        }
        assert(f2.failed == st2.failed + g2.failed);
        assert(f2.failed =~= Seq::<AssetFailureView>::empty());
    }
}

/// A registered bitmap of an unsupported pixel format, not yet present,
/// records exactly one failure naming `UnsupportedPixelFormat` and writes
/// nothing; the state the remaining tags see is otherwise unchanged, so
/// the rest of the bundle proceeds as if the tag were not there.
pub proof fn lemma_unsupported_format_fails_alone(
    t: TagView,
    table: Map<u16, Seq<char>>,
    st: MatState,
)
    requires
        t matches TagView::LosslessBitmapAsset { asset_id, pixel_format, .. }
            && pixel_format != crate::codec::PixelFormat::Rgb32 && table.contains_key(asset_id)
            && !st.present.contains((table[asset_id], AssetKind::Png)),
    ensures
        ({
            let st1 = spec_step(t, table, st);
            &&& st1.written == st.written
            &&& st1.skipped == st.skipped
            &&& st1.present == st.present
            &&& st1.failed == st.failed.push(
                AssetFailureView {
                    asset_id: t->LosslessBitmapAsset_asset_id,
                    tag_kind: TagKind::Bitmap,
                    reason: FailureReasonView::Codec {
                        error: CodecError::UnsupportedPixelFormat,
                    },
                },
            )
        }),
{
}

/// The unregistered failure each asset tag of a sequence would record, in
/// stream order, were no id registered at all.
pub open spec fn unregistered_failures(tags: Seq<TagView>) -> Seq<AssetFailureView>
    decreases tags.len(),
{
    if tags.len() == 0 {
        Seq::empty()
    } else {
        (match tags[0] {
            TagView::BinaryDataAsset { asset_id, payload } => seq![
                AssetFailureView {
                    asset_id,
                    tag_kind: TagKind::Binary,
                    reason: FailureReasonView::UnregisteredAsset {
                        sample_bytes: sample_of(payload),
                    },
                },
            ],
            TagView::LosslessBitmapAsset { asset_id, packed_data, .. } => seq![
                AssetFailureView {
                    asset_id,
                    tag_kind: TagKind::Bitmap,
                    reason: FailureReasonView::UnregisteredAsset {
                        sample_bytes: sample_of(packed_data),
                    },
                },
            ],
            _ => Seq::empty(),
        }) + unregistered_failures(tags.subrange(1, tags.len() as int))
    }
}

/// Against an empty symbol table the pass writes and skips nothing: every
/// binary and bitmap tag records an unregistered failure, in stream order.
pub proof fn lemma_empty_table_all_unregistered(tags: Seq<TagView>, st: MatState)
    ensures
        ({
            let fin = spec_materialize(tags, Map::empty(), st);
            &&& fin.written == st.written
            &&& fin.skipped == st.skipped
            &&& fin.failed == st.failed + unregistered_failures(tags)
            &&& fin.present == st.present
        }),
    decreases tags.len(),
{
    let fin = spec_materialize(tags, Map::empty(), st);
    if tags.len() == 0 {
        assert(fin.failed =~= st.failed + unregistered_failures(tags));
    } else {
        let rest = tags.subrange(1, tags.len() as int);
        let st1 = spec_step(tags[0], Map::<u16, Seq<char>>::empty(), st);
        lemma_empty_table_all_unregistered(rest, st1);
        assert(st1.failed + unregistered_failures(rest) =~= st.failed + unregistered_failures(
            tags,
        ));
    }
}

fn present_contains(present: &Vec<(String, AssetKind)>, name: &String, kind: AssetKind) -> (r:
    bool)
    ensures
        r == file_set(present.deep_view()).contains((name@, kind)),
{
    let mut i: usize = 0;
    while i < present.len()
        invariant
            i <= present@.len(),
            forall|k: int| 0 <= k < i ==> #[trigger] present.deep_view()[k] != (name@, kind),
        decreases present@.len() - i,
    {
        if present[i].1 == kind && present[i].0 == *name {
            proof {
                assert(present.deep_view()[i as int] == (name@, kind));
                assert(present.deep_view().contains((name@, kind)));
            }
            return true;
        }
        proof {
            assert(present.deep_view()[i as int] == (present@[i as int].0@, present@[i as int].1));
        }
        i = i + 1;
    }
    proof {
        assert forall|k: int|
            0 <= k < present.deep_view().len() implies present.deep_view()[k] != ((name@, kind)) by {
        }
    }
    false
}

/// Materializes every asset tag of the sequence, in stream order, against
/// a finished symbol table and the directory listing of files that already
/// exist. Returns the assets to write and the bundle outcome: the written
/// count is exactly the number of returned assets, skips are targets that
/// were already present (a file written earlier in the same pass counts as
/// present), and failures carry each asset's id, tag kind and reason.
pub fn materialize(
    tags: &Vec<TagRecord>,
    table: &SymbolTable,
    existing: &Vec<(String, AssetKind)>,
) -> (r: (Vec<ExtractedAsset>, BundleOutcome))
    ensures
        ({
            let fin = spec_materialize_run(tags.deep_view(), table@, existing.deep_view());
            &&& r.0.deep_view() == fin.written
            &&& r.1.written == r.0@.len()
            &&& r.1.written as nat == fin.written.len()
            &&& r.1.skipped as nat == fin.skipped
            &&& r.1.failed.deep_view() == fin.failed
        }),
{
    let ghost dv = tags.deep_view();
    let ghost tv = table@;
    let mut present: Vec<(String, AssetKind)> = Vec::new();
    let mut e: usize = 0;
    while e < existing.len()
        invariant
            e <= existing@.len(),
            present.deep_view() == existing.deep_view().subrange(0, e as int),
        decreases existing@.len() - e,
    {
        let ghost pre = present.deep_view();
        present.push((existing[e].0.clone(), existing[e].1));
        proof {
            assert(present.deep_view() =~= pre.push(
                (existing@[e as int].0@, existing@[e as int].1),
            ));
            assert(present.deep_view() =~= existing.deep_view().subrange(0, e + 1));
        }
        e = e + 1;
    }
    proof {
        assert(existing.deep_view().subrange(0, existing.deep_view().len() as int)
            =~= existing.deep_view());
    }
    let mut out: Vec<ExtractedAsset> = Vec::new();
    let mut skipped: usize = 0;
    let mut failed: Vec<AssetFailure> = Vec::new();
    let mut i: usize = 0;
    proof {
        assert(out.deep_view() =~= Seq::<ExtractedAssetView>::empty());
        assert(failed.deep_view() =~= Seq::<AssetFailureView>::empty());
        assert(dv.subrange(0, dv.len() as int) =~= dv);
    }
    while i < tags.len()
        invariant
            dv == tags.deep_view(),
            tv == table@,
            i <= dv.len(),
            skipped <= i,
            out@.len() <= i,
            spec_materialize_run(dv, tv, existing.deep_view()) == spec_materialize(
                dv.subrange(i as int, dv.len() as int),
                tv,
                MatState {
                    written: out.deep_view(),
                    skipped: skipped as nat,
                    failed: failed.deep_view(),
                    present: file_set(present.deep_view()),
                },
            ),
        decreases dv.len() - i,
    {
        let ghost st = MatState {
            written: out.deep_view(),
            skipped: skipped as nat,
            failed: failed.deep_view(),
            present: file_set(present.deep_view()),
        };
        proof {
            assert(dv.subrange(i as int, dv.len() as int)[0] == dv[i as int]);
            assert(dv.subrange(i as int, dv.len() as int).subrange(
                1,
                dv.subrange(i as int, dv.len() as int).len() as int,
            ) =~= dv.subrange(i + 1, dv.len() as int));
            assert(dv[i as int] == tags@[i as int].deep_view());
        }
        match &tags[i] {
            TagRecord::BinaryDataAsset { asset_id, payload } => {
                match table.get(*asset_id) {
                    None => {
                        let sample: Vec<u8> = sample_prefix(payload);
                        let ghost pre = failed.deep_view();
                        failed.push(
                            AssetFailure {
                                asset_id: *asset_id,
                                tag_kind: TagKind::Binary,
                                reason: FailureReason::UnregisteredAsset { sample_bytes: sample },
                            },
                        );
                        proof {
                            assert(failed.deep_view() =~= pre.push(
                                AssetFailureView {
                                    asset_id: *asset_id,
                                    tag_kind: TagKind::Binary,
                                    reason: FailureReasonView::UnregisteredAsset {
                                        sample_bytes: sample_of(payload@),
                                    },
                                },
                            ));
                        }
                    },
                    Some(name) => {
                        if present_contains(&present, name, AssetKind::Xml) {
                            skipped = skipped + 1;
                        } else {
                            let asset = ExtractedAsset {
                                name: name.clone(),
                                kind: AssetKind::Xml,
                                bytes: vec_slice(payload, 0, payload.len()),
                            };
                            let name_copy: String = name.clone();
                            let ghost pre_out = out.deep_view();
                            let ghost pre_present = present.deep_view();
                            proof {
                                assert(payload@.subrange(0, payload@.len() as int) =~= payload@);
                            }
                            out.push(asset);
                            present.push((name_copy, AssetKind::Xml));
                            proof {
                                assert(out.deep_view() =~= pre_out.push(
                                    ExtractedAssetView {
                                        name: tv[*asset_id],
                                        kind: AssetKind::Xml,
                                        bytes: payload@,
                                    },
                                ));
                                assert(present.deep_view() =~= pre_present.push(
                                    (tv[*asset_id], AssetKind::Xml),
                                ));
                                lemma_file_set_push(pre_present, (tv[*asset_id], AssetKind::Xml));
                            }
                        }
                    },
                }
            },
            TagRecord::LosslessBitmapAsset {
                asset_id,
                width,
                height,
                pixel_format,
                packed_data,
            } => {
                match table.get(*asset_id) {
                    None => {
                        let sample: Vec<u8> = sample_prefix(packed_data);
                        let ghost pre = failed.deep_view();
                        failed.push(
                            AssetFailure {
                                asset_id: *asset_id,
                                tag_kind: TagKind::Bitmap,
                                reason: FailureReason::UnregisteredAsset { sample_bytes: sample },
                            },
                        );
                        proof {
                            assert(failed.deep_view() =~= pre.push(
                                AssetFailureView {
                                    asset_id: *asset_id,
                                    tag_kind: TagKind::Bitmap,
                                    reason: FailureReasonView::UnregisteredAsset {
                                        sample_bytes: sample_of(packed_data@),
                                    },
                                },
                            ));
                        }
                    },
                    Some(name) => {
                        if present_contains(&present, name, AssetKind::Png) {
                            skipped = skipped + 1;
                        } else {
                            match decode_and_encode(packed_data, *pixel_format, *width, *height) {
                                Err(error) => {
                                    let ghost pre = failed.deep_view();
                                    failed.push(
                                        AssetFailure {
                                            asset_id: *asset_id,
                                            tag_kind: TagKind::Bitmap,
                                            reason: FailureReason::Codec { error },
                                        },
                                    );
                                    proof {
                                        assert(failed.deep_view() =~= pre.push(
                                            AssetFailureView {
                                                asset_id: *asset_id,
                                                tag_kind: TagKind::Bitmap,
                                                reason: FailureReasonView::Codec { error },
                                            },
                                        ));
                                    }
                                },
                                Ok(bytes) => {
                                    let ghost png_bytes = bytes@;
                                    let asset = ExtractedAsset {
                                        name: name.clone(),
                                        kind: AssetKind::Png,
                                        bytes,
                                    };
                                    let name_copy: String = name.clone();
                                    let ghost pre_out = out.deep_view();
                                    let ghost pre_present = present.deep_view();
                                    out.push(asset);
                                    present.push((name_copy, AssetKind::Png));
                                    proof {
                                        assert(out.deep_view() =~= pre_out.push(
                                            ExtractedAssetView {
                                                name: tv[*asset_id],
                                                kind: AssetKind::Png,
                                                bytes: png_bytes,
                                            },
                                        ));
                                        assert(present.deep_view() =~= pre_present.push(
                                            (tv[*asset_id], AssetKind::Png),
                                        ));
                                        lemma_file_set_push(
                                            pre_present,
                                            (tv[*asset_id], AssetKind::Png),
                                        );
                                    }
                                },
                            }
                        }
                    },
                }
            },
            _ => {},
        }
        i = i + 1;
    }
    proof {
        assert(dv.subrange(dv.len() as int, dv.len() as int) =~= Seq::<TagView>::empty());
    }
    let written_count: usize = out.len();
    (out, BundleOutcome { written: written_count, skipped, failed })
}

} // verus!
