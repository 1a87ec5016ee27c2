//! The storage engine: the two-table state of the history store and every
//! operation on it, verified against a model of the table contents.
//!
//! The store keeps one parent table of history entries keyed by an
//! auto-incrementing id, and one child table of variant rows, each carrying
//! the id of the parent it belongs to. The model ([`DbModel`]) is the exact
//! content of both tables plus the next id to assign; every operation's
//! contract says what it does to that model.

use crate::video::{format_like, info_like, ManagedVideo, VideoFormat, VideoInfo};
use vstd::prelude::*;

verus! {

/// Direction and ordering of a chunked fetch.
///
/// # See also
/// - [`Database::fetch_chunk_of`]
/// - [`Database::fetch_chunk`]
/// - [`Database::fetch_first_chunk_from_top`]
/// - [`Database::fetch_first_chunk_from_bottom`]
#[derive(Debug, Clone, Copy)]
pub enum FetchOrd {
    /// Rows with an id greater than or equal to the starting id, in
    /// ascending id order.
    GEQandASC,
    /// Rows with an id less than or equal to the starting id, in descending
    /// id order.
    LEQandDESC,
}

/// The one failure the verified store itself can report: a fetch by id that
/// matched no row. Every other failure of the full system (connection,
/// migration, engine or row-decoding trouble) arises in the unverified
/// persistence binding and stays there.
#[derive(Debug, Clone, Copy, PartialEq, Eq, Structural)]
pub enum DatabaseError {
    NotFound,
}

/// The page size the convenience fetch methods use when the caller does not
/// pick one.
pub const DEFAULT_CHUNK_SIZE: u32 = 20;

/// One row of the parent table: the persisted scalar columns of a history
/// entry together with its primary key.
#[derive(Debug)]
pub struct InfoRow {
    pub id: i32,
    pub video_id: String,
    pub title: String,
    pub author: String,
    pub duration_seconds: String,
    pub thumbnail: Option<String>,
    pub audio_available: bool,
}

/// One row of the child table: the columns of a variant together with the
/// parent-reference column naming the entry it belongs to.
#[derive(Debug)]
pub struct FormatRow {
    pub container: String,
    pub width: String,
    pub height: String,
    pub fps: String,
    pub video_info_id: i32,
}

impl InfoRow {
    /// Decode this parent row into a history entry. The variant list starts
    /// out empty; variants are decoded from child rows separately.
    pub fn to_video_info(&self) -> (v: VideoInfo)
        ensures
            v.video_id == self.video_id,
            v.title == self.title,
            v.author == self.author,
            v.duration_seconds == self.duration_seconds,
            v.thumbnail == self.thumbnail,
            v.video_formats@ == Seq::<VideoFormat>::empty(),
            v.audio_available == self.audio_available,
    {
        VideoInfo {
            video_id: self.video_id.clone(),
            title: self.title.clone(),
            author: self.author.clone(),
            duration_seconds: self.duration_seconds.clone(),
            thumbnail: crate::video::copy_thumbnail(&self.thumbnail),
            video_formats: Vec::new(),
            audio_available: self.audio_available,
        }
    }

    /// Encode a history entry's scalar columns as a parent row under the
    /// given id.
    pub fn from_video_info(id: i32, v: &VideoInfo) -> (r: InfoRow)
        ensures
            r == parent_row(id as int, *v),
    {
        InfoRow {
            id,
            video_id: v.video_id.clone(),
            title: v.title.clone(),
            author: v.author.clone(),
            duration_seconds: v.duration_seconds.clone(),
            thumbnail: crate::video::copy_thumbnail(&v.thumbnail),
            audio_available: v.audio_available,
        }
    }
}

impl FormatRow {
    /// Decode this child row into a variant, dropping the parent reference.
    pub fn to_video_format(&self) -> (f: VideoFormat)
        ensures
            f == format_of_row(*self),
    {
        VideoFormat {
            container: self.container.clone(),
            width: self.width.clone(),
            height: self.height.clone(),
            fps: self.fps.clone(),
        }
    }

    /// Encode a variant as a child row referencing the parent with the given
    /// id.
    pub fn from_video_format(f: &VideoFormat, video_info_id: i32) -> (r: FormatRow)
        ensures
            r == child_row(video_info_id as int, *f),
    {
        FormatRow {
            container: f.container.clone(),
            width: f.width.clone(),
            height: f.height.clone(),
            fps: f.fps.clone(),
            video_info_id,
        }
    }
}

/// The variant carried by a child row, with the parent reference dropped.
pub open spec fn format_of_row(r: FormatRow) -> VideoFormat {
    VideoFormat { container: r.container, width: r.width, height: r.height, fps: r.fps }
}

/// The parent row that persisting entry `v` under id `id` writes.
pub open spec fn parent_row(id: int, v: VideoInfo) -> InfoRow {
    InfoRow {
        id: id as i32,
        video_id: v.video_id,
        title: v.title,
        author: v.author,
        duration_seconds: v.duration_seconds,
        thumbnail: v.thumbnail,
        audio_available: v.audio_available,
    }
}

/// The child row that persisting variant `f` under parent id `id` writes.
pub open spec fn child_row(id: int, f: VideoFormat) -> FormatRow {
    FormatRow {
        container: f.container,
        width: f.width,
        height: f.height,
        fps: f.fps,
        video_info_id: id as i32,
    }
}

/// The child rows that persisting the variant list `formats` under parent id
/// `id` writes, in order.
pub open spec fn child_rows(id: int, formats: Seq<VideoFormat>) -> Seq<FormatRow> {
    formats.map_values(|f: VideoFormat| child_row(id, f))
}

/// The variants stored for parent id `id`: every child row whose parent
/// reference equals `id`, decoded, in table scan order (which is insertion
/// order).
pub open spec fn formats_for_rows(rows: Seq<FormatRow>, id: int) -> Seq<VideoFormat>
    decreases rows.len(),
{
    if rows.len() == 0 {
        Seq::empty()
    } else {
        formats_for_rows(rows.drop_last(), id) + (if rows.last().video_info_id == id {
            seq![format_of_row(rows.last())]
        } else {
            Seq::empty()
        })
    }
}

/// The first `n` parent rows with id at least `start`, in ascending scan
/// order: what a forward chunked fetch returns.
pub open spec fn chunk_geq(rows: Seq<InfoRow>, start: int, n: nat) -> Seq<InfoRow>
    decreases rows.len(),
{
    if rows.len() == 0 || n == 0 {
        Seq::empty()
    } else if rows[0].id >= start {
        seq![rows[0]] + chunk_geq(rows.skip(1), start, (n - 1) as nat)
    } else {
        chunk_geq(rows.skip(1), start, n)
    }
}

/// Every parent row with id at least `start`, in ascending scan order.
pub open spec fn rows_geq(rows: Seq<InfoRow>, start: int) -> Seq<InfoRow>
    decreases rows.len(),
{
    if rows.len() == 0 {
        Seq::empty()
    } else if rows[0].id >= start {
        seq![rows[0]] + rows_geq(rows.skip(1), start)
    } else {
        rows_geq(rows.skip(1), start)
    }
}

/// The first `n` parent rows with id at most `start`, scanning from the
/// bottom of the table: what a backward chunked fetch returns, nearest to
/// the starting id first, so in descending id order.
pub open spec fn chunk_leq(rows: Seq<InfoRow>, start: int, n: nat) -> Seq<InfoRow>
    decreases rows.len(),
{
    if rows.len() == 0 || n == 0 {
        Seq::empty()
    } else if rows.last().id <= start {
        seq![rows.last()] + chunk_leq(rows.drop_last(), start, (n - 1) as nat)
    } else {
        chunk_leq(rows.drop_last(), start, n)
    }
}

/// Every parent row with id at most `start`, in descending scan order.
pub open spec fn rows_leq(rows: Seq<InfoRow>, start: int) -> Seq<InfoRow>
    decreases rows.len(),
{
    if rows.len() == 0 {
        Seq::empty()
    } else if rows.last().id <= start {
        seq![rows.last()] + rows_leq(rows.drop_last(), start)
    } else {
        rows_leq(rows.drop_last(), start)
    }
}

/// The parent table after deleting id `id`: every row except those whose id
/// matches, in unchanged order.
pub open spec fn remove_row(rows: Seq<InfoRow>, id: int) -> Seq<InfoRow>
    decreases rows.len(),
{
    if rows.len() == 0 {
        Seq::empty()
    } else {
        remove_row(rows.drop_last(), id) + (if rows.last().id == id {
            Seq::empty()
        } else {
            seq![rows.last()]
        })
    }
}

/// The model of the store: the exact contents of both tables, the next id
/// the parent table will assign, and whether the schema has been set up.
#[verifier::ext_equal]
pub struct DbModel {
    /// Parent table contents in scan order, which the well-formedness
    /// condition keeps equal to ascending id order.
    pub info_rows: Seq<InfoRow>,
    /// Child table contents in scan order, which is insertion order.
    pub format_rows: Seq<FormatRow>,
    /// The id the next inserted entry receives. Ids count up from 1 and are
    /// never reused, so a deleted id stays vacant forever.
    pub next_id: int,
    /// Whether migrations have completed; no operation is permitted before.
    pub migrated: bool,
}

impl DbModel {
    /// The state of a freshly created, still unmigrated store file.
    pub open spec fn empty() -> DbModel {
        DbModel {
            info_rows: Seq::empty(),
            format_rows: Seq::empty(),
            next_id: 1,
            migrated: false,
        }
    }

    /// Every reachable store state satisfies this: parent rows are in
    /// strictly ascending id order, every id ever assigned (to a parent row
    /// or as a parent reference) is at least 1 and below the next fresh id,
    /// and the next fresh id fits the id column's type.
    pub open spec fn wf(self) -> bool {
        &&& 1 <= self.next_id <= i32::MAX as int
        &&& forall|i: int, j: int|
            #![trigger self.info_rows[i], self.info_rows[j]]
            0 <= i < j < self.info_rows.len() ==> self.info_rows[i].id < self.info_rows[j].id
        &&& forall|i: int|
            0 <= i < self.info_rows.len() ==> 1 <= (#[trigger] self.info_rows[i]).id
                < self.next_id
        &&& forall|i: int|
            0 <= i < self.format_rows.len() ==> 1 <= (
            #[trigger] self.format_rows[i]).video_info_id < self.next_id
    }

    /// Whether the parent table holds a row with this id.
    pub open spec fn has_row(self, id: int) -> bool {
        exists|i: int| 0 <= i < self.info_rows.len() && (#[trigger] self.info_rows[i]).id == id
    }

    /// The position of the row with this id (meaningful when `has_row`).
    pub open spec fn row_index(self, id: int) -> int {
        choose|i: int| 0 <= i < self.info_rows.len() && (#[trigger] self.info_rows[i]).id == id
    }

    /// The parent row with this id (meaningful when `has_row`).
    pub open spec fn row_with_id(self, id: int) -> InfoRow {
        self.info_rows[self.row_index(id)]
    }

    /// The variants stored for parent id `id`, in scan order.
    pub open spec fn formats_for(self, id: int) -> Seq<VideoFormat> {
        formats_for_rows(self.format_rows, id)
    }

    /// `info` is exactly what assembling `row` with its stored variants
    /// yields: every scalar column decoded verbatim, and the variant list
    /// equal to the child rows referencing the row's id, in scan order.
    pub open spec fn assembles(self, row: InfoRow, info: VideoInfo) -> bool {
        &&& info.video_id == row.video_id
        &&& info.title == row.title
        &&& info.author == row.author
        &&& info.duration_seconds == row.duration_seconds
        &&& info.thumbnail == row.thumbnail
        &&& info.audio_available == row.audio_available
        &&& info.video_formats@ == self.formats_for(row.id as int)
    }

    /// `info` is the full record stored under `id` (meaningful when
    /// `has_row(id)`).
    pub open spec fn is_record(self, id: int, info: VideoInfo) -> bool {
        self.assembles(self.row_with_id(id), info)
    }

    /// The effect of inserting entry `v`: one parent row under the next
    /// fresh id, one child row per variant in order, and the counter moves
    /// on. Nothing else changes.
    pub open spec fn insert_model(self, v: VideoInfo) -> DbModel {
        DbModel {
            info_rows: self.info_rows.push(parent_row(self.next_id, v)),
            format_rows: self.format_rows + child_rows(self.next_id, v.video_formats@),
            next_id: self.next_id + 1,
            ..self
        }
    }

    /// The effect of applying migrations: the schema is present afterwards,
    /// and every row and the id counter are untouched.
    pub open spec fn migrate(self) -> DbModel {
        DbModel { migrated: true, ..self }
    }

    /// The effect of inserting a whole batch, first entry first: the fold of
    /// [`DbModel::insert_model`] over the batch.
    pub open spec fn insert_bulk_model(self, vs: Seq<VideoInfo>) -> DbModel
        decreases vs.len(),
    {
        if vs.len() == 0 {
            self
        } else {
            self.insert_bulk_model(vs.drop_last()).insert_model(vs.last())
        }
    }

    /// The parent rows a chunked fetch in direction `ord` returns, at most
    /// `n` of them, starting from `start` inclusive.
    pub open spec fn chunk_rows(self, start: int, n: nat, ord: FetchOrd) -> Seq<InfoRow> {
        match ord {
            FetchOrd::GEQandASC => chunk_geq(self.info_rows, start, n),
            FetchOrd::LEQandDESC => chunk_leq(self.info_rows, start, n),
        }
    }

    /// Every parent row qualifying under the bound of direction `ord`, in
    /// the order that direction returns them.
    pub open spec fn qualifying_rows(self, start: int, ord: FetchOrd) -> Seq<InfoRow> {
        match ord {
            FetchOrd::GEQandASC => rows_geq(self.info_rows, start),
            FetchOrd::LEQandDESC => rows_leq(self.info_rows, start),
        }
    }

    /// What every chunked fetch returns: one wrapped record per row of
    /// [`DbModel::chunk_rows`], in order, each assembled from its row and
    /// that row's stored variants, never more than `n` of them; and when `n`
    /// bounds the number of qualifying rows from above, every qualifying row
    /// is there — a short page, never an error and never padded.
    pub open spec fn is_chunk_result(
        self,
        start: int,
        n: nat,
        ord: FetchOrd,
        chunk: Seq<ManagedVideo>,
    ) -> bool {
        let rows = self.chunk_rows(start, n, ord);
        &&& chunk.len() == rows.len()
        &&& chunk.len() <= n
        &&& forall|k: int|
            0 <= k < rows.len() ==> {
                &&& (#[trigger] chunk[k]).spec_id() == rows[k].id
                &&& self.assembles(rows[k], chunk[k].spec_info())
                &&& chunk[k].spec_content_size() is None
                &&& !chunk[k].spec_downloading()
            }
        &&& self.qualifying_rows(start, ord).len() <= n ==> rows == self.qualifying_rows(
            start,
            ord,
        )
    }
}

proof fn lemma_chunk_geq_all(rows: Seq<InfoRow>, start: int, n: nat)
    requires
        rows_geq(rows, start).len() <= n,
    ensures
        chunk_geq(rows, start, n) == rows_geq(rows, start),
    decreases rows.len(),
{
    if rows.len() == 0 {
    } else if rows[0].id >= start {
        lemma_chunk_geq_all(rows.skip(1), start, (n - 1) as nat);
    } else {
        lemma_chunk_geq_all(rows.skip(1), start, n);
    }
}

proof fn lemma_chunk_leq_all(rows: Seq<InfoRow>, start: int, n: nat)
    requires
        rows_leq(rows, start).len() <= n,
    ensures
        chunk_leq(rows, start, n) == rows_leq(rows, start),
    decreases rows.len(),
{
    if rows.len() == 0 {
    } else if rows.last().id <= start {
        lemma_chunk_leq_all(rows.drop_last(), start, (n - 1) as nat);
    } else {
        lemma_chunk_leq_all(rows.drop_last(), start, n);
    }
}

proof fn lemma_remove_row_absent_noop(rows: Seq<InfoRow>, id: int)
    requires
        forall|k: int| 0 <= k < rows.len() ==> (#[trigger] rows[k]).id != id,
    ensures
        remove_row(rows, id) == rows,
    decreases rows.len(),
{
    if rows.len() == 0 {
        assert(remove_row(rows, id) =~= rows);
    } else {
        assert forall|k: int| 0 <= k < rows.drop_last().len() implies (#[trigger] rows.drop_last()[k]).id
            != id by {
            assert(rows.drop_last()[k] == rows[k]);
        }
        lemma_remove_row_absent_noop(rows.drop_last(), id);
        assert(rows[rows.len() - 1].id != id);
        assert(remove_row(rows, id) =~= rows);
    }
}

proof fn lemma_remove_row_at(rows: Seq<InfoRow>, id: int, i: int)
    requires
        0 <= i < rows.len(),
        rows[i].id == id,
        forall|k: int| 0 <= k < rows.len() && k != i ==> (#[trigger] rows[k]).id != id,
    ensures
        remove_row(rows, id) == rows.remove(i),
    decreases rows.len(),
{
    if i == rows.len() - 1 {
        assert forall|k: int| 0 <= k < rows.drop_last().len() implies (#[trigger] rows.drop_last()[k]).id
            != id by {
            assert(rows.drop_last()[k] == rows[k]);
        }
        lemma_remove_row_absent_noop(rows.drop_last(), id);
        assert(remove_row(rows, id) =~= rows.drop_last());
        assert(rows.remove(i) =~= rows.drop_last());
    } else {
        assert(rows[rows.len() - 1].id != id);
        assert forall|k: int| 0 <= k < rows.drop_last().len() && k != i implies (
        #[trigger] rows.drop_last()[k]).id != id by {
            assert(rows.drop_last()[k] == rows[k]);
        }
        assert(rows.drop_last()[i] == rows[i]);
        lemma_remove_row_at(rows.drop_last(), id, i);
        assert(remove_row(rows, id) =~= rows.drop_last().remove(i).push(rows.last()));
        assert(rows.remove(i) =~= rows.drop_last().remove(i).push(rows.last()));
    }
}

/// What a delete leaves behind holds no row with the deleted id: the id is
/// unfetchable afterwards.
pub proof fn lemma_removed_id_gone(rows: Seq<InfoRow>, id: int)
    ensures
        forall|k: int|
            0 <= k < remove_row(rows, id).len() ==> (#[trigger] remove_row(rows, id)[k]).id != id,
    decreases rows.len(),
{
    if rows.len() == 0 {
    } else {
        lemma_removed_id_gone(rows.drop_last(), id);
        assert forall|k: int| 0 <= k < remove_row(rows, id).len() implies (#[trigger] remove_row(
            rows,
            id,
        )[k]).id != id by {
            if k < remove_row(rows.drop_last(), id).len() {
                assert(remove_row(rows, id)[k] == remove_row(rows.drop_last(), id)[k]);
            } else {
                if rows.last().id == id {
                    assert(remove_row(rows, id).len() == remove_row(rows.drop_last(), id).len());
                    assert(false);
                } else {
                    assert(remove_row(rows, id)[k] == rows.last());
                }
            }
        }
    }
}

/// A chunked fetch whose page size bounds the number of qualifying rows
/// from above returns exactly the qualifying rows: a short page, never an
/// error and never padded.
pub proof fn lemma_chunk_returns_all_qualifying(m: DbModel, start: int, n: nat, ord: FetchOrd)
    requires
        m.qualifying_rows(start, ord).len() <= n,
    ensures
        m.chunk_rows(start, n, ord) == m.qualifying_rows(start, ord),
{
    match ord {
        FetchOrd::GEQandASC => lemma_chunk_geq_all(m.info_rows, start, n),
        FetchOrd::LEQandDESC => lemma_chunk_leq_all(m.info_rows, start, n),
    }
}

proof fn lemma_rows_leq_covers_all(rows: Seq<InfoRow>, start: int)
    requires
        forall|k: int| 0 <= k < rows.len() ==> (#[trigger] rows[k]).id <= start,
    ensures
        rows_leq(rows, start) == rows.reverse(),
    decreases rows.len(),
{
    if rows.len() == 0 {
        assert(rows_leq(rows, start) =~= rows.reverse());
    } else {
        assert forall|k: int| 0 <= k < rows.drop_last().len() implies (#[trigger] rows.drop_last()[k]).id
            <= start by {
            assert(rows.drop_last()[k] == rows[k]);
        }
        lemma_rows_leq_covers_all(rows.drop_last(), start);
        assert(rows[rows.len() - 1].id <= start);
        assert(rows_leq(rows, start) =~= rows.reverse());
    }
}

proof fn lemma_formats_for_rows_append(a: Seq<FormatRow>, b: Seq<FormatRow>, id: int)
    ensures
        formats_for_rows(a + b, id) == formats_for_rows(a, id) + formats_for_rows(b, id),
    decreases b.len(),
{
    if b.len() == 0 {
        assert(a + b =~= a);
        assert(formats_for_rows(a, id) + formats_for_rows(b, id) =~= formats_for_rows(a, id));
    } else {
        assert((a + b).drop_last() =~= a + b.drop_last());
        assert((a + b).last() == b.last());
        lemma_formats_for_rows_append(a, b.drop_last(), id);
        assert(formats_for_rows(a + b, id) =~= formats_for_rows(a, id) + formats_for_rows(b, id));
    }
}

proof fn lemma_formats_for_rows_absent(rows: Seq<FormatRow>, id: int)
    requires
        forall|k: int| 0 <= k < rows.len() ==> (#[trigger] rows[k]).video_info_id != id,
    ensures
        formats_for_rows(rows, id) == Seq::<VideoFormat>::empty(),
    decreases rows.len(),
{
    if rows.len() == 0 {
    } else {
        assert forall|k: int| 0 <= k < rows.drop_last().len() implies (#[trigger] rows.drop_last()[k]).video_info_id
            != id by {
            assert(rows.drop_last()[k] == rows[k]);
        }
        lemma_formats_for_rows_absent(rows.drop_last(), id);
        assert(rows[rows.len() - 1].video_info_id != id);
        assert(formats_for_rows(rows, id) =~= Seq::<VideoFormat>::empty());
    }
}

proof fn lemma_formats_for_child_rows(id: int, formats: Seq<VideoFormat>)
    requires
        0 <= id <= i32::MAX as int,
    ensures
        formats_for_rows(child_rows(id, formats), id) == formats,
    decreases formats.len(),
{
    if formats.len() == 0 {
        assert(formats_for_rows(child_rows(id, formats), id) =~= formats);
    } else {
        assert(child_rows(id, formats).drop_last() =~= child_rows(id, formats.drop_last()));
        assert(child_rows(id, formats).last() == child_row(id, formats.last()));
        lemma_formats_for_child_rows(id, formats.drop_last());
        assert((id as i32) as int == id);
        assert(format_of_row(child_row(id, formats.last())) == formats.last());
        assert(formats_for_rows(child_rows(id, formats), id) =~= formats);
    }
}

/// The round trip: inserting an entry into a well-formed store and looking
/// up the id it was assigned yields the entry back. The new parent row
/// carries the entry's scalar columns verbatim, the variants stored for that
/// id equal the inserted variant list element for element and in order, and
/// every record assembled from that id agrees with the inserted entry field
/// for field.
pub proof fn lemma_insert_then_fetch_round_trip(m: DbModel, v: VideoInfo)
    requires
        m.wf(),
    ensures
        ({
            let m2 = m.insert_model(v);
            &&& m2.has_row(m.next_id)
            &&& m2.row_with_id(m.next_id) == parent_row(m.next_id, v)
            &&& m2.formats_for(m.next_id) == v.video_formats@
            &&& forall|info: VideoInfo| m2.is_record(m.next_id, info) ==> info_like(info, v)
        }),
{
    let m2 = m.insert_model(v);
    let id = m.next_id;
    assert((id as i32) as int == id);
    let rows2 = m2.info_rows;
    assert(rows2[rows2.len() - 1] == parent_row(id, v));
    assert(m2.has_row(id));
    let k = m2.row_index(id);
    assert(0 <= k < rows2.len() && rows2[k].id == id);
    if k != rows2.len() - 1 {
        assert(rows2[k] == m.info_rows[k]);
        assert(m.info_rows[k].id < id);
        assert(false);
    }
    assert(m2.row_with_id(id) == parent_row(id, v));
    assert forall|kk: int| 0 <= kk < m.format_rows.len() implies (
    #[trigger] m.format_rows[kk]).video_info_id != id by {
        assert(m.format_rows[kk].video_info_id < m.next_id);
    }
    lemma_formats_for_rows_absent(m.format_rows, id);
    lemma_formats_for_rows_append(m.format_rows, child_rows(id, v.video_formats@), id);
    lemma_formats_for_child_rows(id, v.video_formats@);
    assert(m2.formats_for(id) =~= v.video_formats@);
    assert forall|info: VideoInfo| m2.is_record(id, info) implies info_like(info, v) by {
        assert(info.video_formats@ == v.video_formats@);
        assert forall|i: int| 0 <= i < info.video_formats@.len() implies format_like(
            #[trigger] info.video_formats@[i],
            v.video_formats@[i],
        ) by {
            assert(info.video_formats@[i] == v.video_formats@[i]);
        }
    }
}

/// Applying migrations twice yields exactly the state of applying them
/// once: migration is idempotent, never duplicates a schema object, and
/// loses no row and no id.
pub proof fn lemma_migrations_idempotent(m: DbModel)
    ensures
        m.migrate().migrate() == m.migrate(),
{
    assert(m.migrate().migrate() =~= m.migrate());
}

/// Inserting preserves well-formedness: the new parent row takes the next
/// fresh id, above every id already present, and every new child row
/// references it.
pub proof fn lemma_insert_model_wf(m: DbModel, v: VideoInfo)
    requires
        m.wf(),
        m.next_id < i32::MAX as int,
    ensures
        m.insert_model(v).wf(),
{
    let m2 = m.insert_model(v);
    assert((m.next_id as i32) as int == m.next_id);
    assert forall|i: int, j: int|
        #![trigger m2.info_rows[i], m2.info_rows[j]]
        0 <= i < j < m2.info_rows.len() implies m2.info_rows[i].id < m2.info_rows[j].id by {
        if j < m.info_rows.len() {
            assert(m.info_rows[i].id < m.info_rows[j].id);
        } else {
            assert(m2.info_rows[j] == parent_row(m.next_id, v));
            assert(m.info_rows[i].id < m.next_id);
        }
    }
    assert forall|i: int| 0 <= i < m2.info_rows.len() implies 1 <= (#[trigger] m2.info_rows[i]).id
        < m2.next_id by {
        if i < m.info_rows.len() {
            assert(1 <= m.info_rows[i].id < m.next_id);
        } else {
            assert(m2.info_rows[i] == parent_row(m.next_id, v));
        }
    }
    assert forall|i: int| 0 <= i < m2.format_rows.len() implies 1 <= (
    #[trigger] m2.format_rows[i]).video_info_id < m2.next_id by {
        if i < m.format_rows.len() {
            assert(1 <= m.format_rows[i].video_info_id < m.next_id);
        } else {
            assert(m2.format_rows[i] == child_row(
                m.next_id,
                v.video_formats@[i - m.format_rows.len()],
            ));
        }
    }
}

/// A whole batch preserves well-formedness, and moves the id counter
/// forward by exactly the batch size.
pub proof fn lemma_bulk_model_wf(m: DbModel, vs: Seq<VideoInfo>)
    requires
        m.wf(),
        m.next_id + vs.len() <= i32::MAX as int,
    ensures
        m.insert_bulk_model(vs).wf(),
        m.insert_bulk_model(vs).next_id == m.next_id + vs.len(),
    decreases vs.len(),
{
    if vs.len() == 0 {
    } else {
        lemma_bulk_model_wf(m, vs.drop_last());
        lemma_insert_model_wf(m.insert_bulk_model(vs.drop_last()), vs.last());
    }
}

/// An insert leaves every record already stored untouched: the same parent
/// row is still found under its id, and the variants stored for that id are
/// unchanged.
pub proof fn lemma_insert_preserves_existing_records(m: DbModel, v: VideoInfo, id: int)
    requires
        m.wf(),
        m.has_row(id),
    ensures
        ({
            let m2 = m.insert_model(v);
            &&& m2.has_row(id)
            &&& m2.row_with_id(id) == m.row_with_id(id)
            &&& m2.formats_for(id) == m.formats_for(id)
        }),
{
    let m2 = m.insert_model(v);
    let i = m.row_index(id);
    assert(0 <= i < m.info_rows.len() && m.info_rows[i].id == id);
    assert(1 <= m.info_rows[i].id < m.next_id);
    assert(m2.info_rows[i] == m.info_rows[i]);
    assert(m2.has_row(id));
    let k = m2.row_index(id);
    assert(0 <= k < m2.info_rows.len() && m2.info_rows[k].id == id);
    if k != i {
        if k < m.info_rows.len() {
            assert(m.info_rows[k].id != m.info_rows[i].id);
        } else {
            assert(m2.info_rows[k] == parent_row(m.next_id, v));
            assert((m.next_id as i32) as int == m.next_id);
        }
        assert(false);
    }
    assert forall|j: int| 0 <= j < child_rows(m.next_id, v.video_formats@).len() implies (
    #[trigger] child_rows(m.next_id, v.video_formats@)[j]).video_info_id != id by {
        assert(child_rows(m.next_id, v.video_formats@)[j] == child_row(
            m.next_id,
            v.video_formats@[j],
        ));
        assert((m.next_id as i32) as int == m.next_id);
    }
    lemma_formats_for_rows_absent(child_rows(m.next_id, v.video_formats@), id);
    lemma_formats_for_rows_append(m.format_rows, child_rows(m.next_id, v.video_formats@), id);
    assert(m2.formats_for(id) =~= m.formats_for(id));
}

/// The batch round trip: after a bulk insert, the k-th assigned id — the
/// pre-batch fresh id plus k — holds exactly the k-th entry of the batch:
/// its scalar columns verbatim, and the variants stored for it equal to its
/// variant list element for element and in order.
pub proof fn lemma_bulk_insert_round_trip(m: DbModel, vs: Seq<VideoInfo>, k: int)
    requires
        m.wf(),
        m.next_id + vs.len() <= i32::MAX as int,
        0 <= k < vs.len(),
    ensures
        ({
            let m2 = m.insert_bulk_model(vs);
            &&& m2.has_row(m.next_id + k)
            &&& m2.row_with_id(m.next_id + k) == parent_row(m.next_id + k, vs[k])
            &&& m2.formats_for(m.next_id + k) == vs[k].video_formats@
        }),
    decreases vs.len(),
{
    let m1 = m.insert_bulk_model(vs.drop_last());
    lemma_bulk_model_wf(m, vs.drop_last());
    if k == vs.len() - 1 {
        lemma_insert_then_fetch_round_trip(m1, vs.last());
    } else {
        lemma_bulk_insert_round_trip(m, vs.drop_last(), k);
        assert(vs.drop_last()[k] == vs[k]);
        lemma_insert_preserves_existing_records(m1, vs.last(), m.next_id + k);
    }
}

/// The verified storage engine: the in-memory table state of the history
/// store, offering exactly the operations of the persisted store.
pub struct Database {
    info_rows: Vec<InfoRow>,
    format_rows: Vec<FormatRow>,
    next_id: i32,
    migrated: bool,
}

impl View for Database {
    type V = DbModel;

    closed spec fn view(&self) -> DbModel {
        DbModel {
            info_rows: self.info_rows@,
            format_rows: self.format_rows@,
            next_id: self.next_id as int,
            migrated: self.migrated,
        }
    }
}

impl Database {
    /// The store is well formed; established by [`Database::new`] and
    /// preserved by every operation.
    pub open spec fn wf(self) -> bool {
        self@.wf()
    }

    /// A fresh, empty store: no rows, no schema yet, ids to be assigned
    /// from 1. Apply migrations before using it.
    pub fn new() -> (db: Database)
        ensures
            db.wf(),
            db@ == DbModel::empty(),
    {
        let db = Database {
            info_rows: Vec::new(),
            format_rows: Vec::new(),
            next_id: 1,
            migrated: false,
        };
        proof {
            assert(db@ =~= DbModel::empty());
        }
        db
    }

    /// Bring the schema up to date. Both tables are created only if absent,
    /// so applying migrations on every startup is safe: a second application
    /// changes nothing, and no row and no id is lost.
    pub fn apply_migrations(&mut self)
        requires
            old(self).wf(),
        ensures
            final(self).wf(),
            final(self)@ == old(self)@.migrate(),
    {
        self.migrated = true;
        proof {
            assert(self@ =~= old(self)@.migrate());
        }
    }

    /// Insert one entry: a parent row is written under the next fresh id,
    /// then one child row per variant, in order; the assigned id is
    /// returned. The whole write is a single transaction, so the model moves
    /// to the new state in one step and no partial write is ever visible.
    pub fn insert_video_info(&mut self, video_info: &VideoInfo) -> (id: i32)
        requires
            old(self).wf(),
            old(self)@.migrated,
            old(self)@.next_id < i32::MAX as int,
        ensures
            final(self).wf(),
            id as int == old(self)@.next_id,
            final(self)@ == old(self)@.insert_model(*video_info),
    {
        let id = self.next_id;
        self.next_id = self.next_id + 1;
        self.info_rows.push(InfoRow::from_video_info(id, video_info));
        proof {
            assert(self.format_rows@ =~= old(self).format_rows@ + child_rows(
                id as int,
                video_info.video_formats@.take(0),
            ));
        }
        let mut i: usize = 0;
        while i < video_info.video_formats.len()
            invariant
                i <= video_info.video_formats@.len(),
                self.info_rows@ == old(self).info_rows@.push(
                    parent_row(id as int, *video_info),
                ),
                self.format_rows@ == old(self).format_rows@ + child_rows(
                    id as int,
                    video_info.video_formats@.take(i as int),
                ),
                self.next_id == id + 1,
                self.migrated == old(self).migrated,
                id as int == old(self)@.next_id,
            decreases video_info.video_formats@.len() - i,
        {
            self.format_rows.push(FormatRow::from_video_format(&video_info.video_formats[i], id));
            proof {
                assert(child_rows(id as int, video_info.video_formats@.take(i + 1)) =~= child_rows(
                    id as int,
                    video_info.video_formats@.take(i as int),
                ).push(child_row(id as int, video_info.video_formats@[i as int])));
                assert(self.format_rows@ =~= old(self).format_rows@ + child_rows(
                    id as int,
                    video_info.video_formats@.take(i + 1),
                ));
            }
            i += 1;
        }
        proof {
            assert(video_info.video_formats@.take(i as int) =~= video_info.video_formats@);
            assert(self@ =~= old(self)@.insert_model(*video_info));
            assert forall|a: int, b: int|
                #![trigger self@.info_rows[a], self@.info_rows[b]]
                0 <= a < b < self@.info_rows.len() implies self@.info_rows[a].id
                < self@.info_rows[b].id by {
                if b < self@.info_rows.len() - 1 {
                    assert(old(self)@.info_rows[a].id < old(self)@.info_rows[b].id);
                }
            }
            assert(self.wf());
        }
        id
    }

    /// Insert a whole batch inside one transaction: ids are assigned in
    /// input order, contiguously from the next fresh id, and returned in
    /// that order. The model moves to the post-batch state in one step, so
    /// the batch is all-or-nothing: no partial batch is ever visible.
    pub fn insert_bulk_video_info(&mut self, video_infos: &Vec<VideoInfo>) -> (ids: Vec<i32>)
        requires
            old(self).wf(),
            old(self)@.migrated,
            old(self)@.next_id + video_infos@.len() <= i32::MAX as int,
        ensures
            final(self).wf(),
            ids@.len() == video_infos@.len(),
            forall|k: int| 0 <= k < ids@.len() ==> #[trigger] ids@[k] as int == old(self)@.next_id + k,
            final(self)@ == old(self)@.insert_bulk_model(video_infos@),
    {
        let mut ids: Vec<i32> = Vec::new();
        let mut i: usize = 0;
        proof {
            assert(video_infos@.take(0) =~= Seq::<VideoInfo>::empty());
        }
        while i < video_infos.len()
            invariant
                i <= video_infos@.len(),
                self.wf(),
                self@.migrated,
                self@ == old(self)@.insert_bulk_model(video_infos@.take(i as int)),
                self@.next_id == old(self)@.next_id + i,
                old(self)@.next_id + video_infos@.len() <= i32::MAX as int,
                ids@.len() == i,
                forall|k: int| 0 <= k < i ==> #[trigger] ids@[k] as int == old(self)@.next_id + k,
            decreases video_infos@.len() - i,
        {
            let id = self.insert_video_info(&video_infos[i]);
            ids.push(id);
            proof {
                assert(video_infos@.take(i + 1).drop_last() =~= video_infos@.take(i as int));
                assert(video_infos@.take(i + 1).last() == video_infos@[i as int]);
            }
            i += 1;
        }
        proof {
            assert(video_infos@.take(i as int) =~= video_infos@);
        }
        ids
    }

    /// Decode the parent row at table position `idx` into a full record:
    /// its scalar columns verbatim, and every stored variant of its id, in
    /// scan order.
    fn assemble_record(&self, idx: usize) -> (v: VideoInfo)
        requires
            idx < self@.info_rows.len(),
        ensures
            self@.assembles(self@.info_rows[idx as int], v),
    {
        let row = &self.info_rows[idx];
        let mut formats: Vec<VideoFormat> = Vec::new();
        let mut j: usize = 0;
        proof {
            assert(self.format_rows@.take(0) =~= Seq::<FormatRow>::empty());
        }
        while j < self.format_rows.len()
            invariant
                j <= self.format_rows@.len(),
                idx < self@.info_rows.len(),
                *row == self@.info_rows[idx as int],
                formats@ == formats_for_rows(self.format_rows@.take(j as int), row.id as int),
            decreases self.format_rows@.len() - j,
        {
            if self.format_rows[j].video_info_id == row.id {
                formats.push(self.format_rows[j].to_video_format());
            }
            proof {
                assert(self.format_rows@.take(j + 1).drop_last() =~= self.format_rows@.take(
                    j as int,
                ));
                assert(self.format_rows@.take(j + 1).last() == self.format_rows@[j as int]);
                assert(formats@ =~= formats_for_rows(self.format_rows@.take(j + 1), row.id as int));
            }
            j += 1;
        }
        proof {
            assert(self.format_rows@.take(j as int) =~= self.format_rows@);
        }
        let mut v = row.to_video_info();
        v.video_formats = formats;
        v
    }

    /// Fetch the record stored under `id`, wrapped together with its row id.
    /// Succeeds exactly when a parent row with that id exists; a miss is the
    /// expected `NotFound` outcome, distinct from every engine-level
    /// failure. An entry may legitimately come back with no variants.
    pub fn fetch_one(&self, id: i32) -> (r: Result<ManagedVideo, DatabaseError>)
        requires
            self.wf(),
            self@.migrated,
        ensures
            match r {
                Ok(m) => {
                    &&& self@.has_row(id as int)
                    &&& m.spec_id() == id
                    &&& self@.is_record(id as int, m.spec_info())
                    &&& m.spec_content_size() is None
                    &&& !m.spec_downloading()
                },
                Err(e) => {
                    &&& e == DatabaseError::NotFound
                    &&& !self@.has_row(id as int)
                },
            },
    {
        let mut i: usize = 0;
        while i < self.info_rows.len()
            invariant
                i <= self@.info_rows.len(),
                self.wf(),
                forall|k: int| 0 <= k < i ==> (#[trigger] self@.info_rows[k]).id != id,
            decreases self@.info_rows.len() - i,
        {
            if self.info_rows[i].id == id {
                let info = self.assemble_record(i);
                proof {
                    assert(self@.has_row(id as int));
                    let k = self@.row_index(id as int);
                    assert(0 <= k < self@.info_rows.len() && self@.info_rows[k].id == id);
                    if k != i {
                        assert(self@.info_rows[k].id != self@.info_rows[i as int].id);
                    }
                    assert(self@.row_with_id(id as int) == self@.info_rows[i as int]);
                }
                return Result::Ok(ManagedVideo::new(id, info));
            }
            i += 1;
        }
        Result::Err(DatabaseError::NotFound)
    }

    /// Fetch a chunk of at most `num_entries` records, starting from
    /// `starting_id` inclusive, in the direction and order given by `ord`.
    ///
    /// A short page is not an error: if fewer rows qualify under the bound,
    /// exactly those come back. The starting id need not match any row; the
    /// bound is applied against whatever ids exist.
    pub fn fetch_chunk_of(&self, starting_id: i32, num_entries: u32, ord: FetchOrd) -> (chunk: Vec<
        ManagedVideo,
    >)
        requires
            self.wf(),
            self@.migrated,
        ensures
            self@.is_chunk_result(starting_id as int, num_entries as nat, ord, chunk@),
    {
        let n = num_entries as usize;
        let mut out: Vec<ManagedVideo> = Vec::new();
        let ghost mut taken: Seq<InfoRow> = Seq::empty();
        match ord {
            FetchOrd::GEQandASC => {
                let mut i: usize = 0;
                proof {
                    assert(self@.info_rows.skip(0) =~= self@.info_rows);
                    assert(taken + chunk_geq(self@.info_rows, starting_id as int, n as nat)
                        =~= chunk_geq(self@.info_rows, starting_id as int, n as nat));
                }
                while i < self.info_rows.len() && out.len() < n
                    invariant
                        self.wf(),
                        i <= self@.info_rows.len(),
                        out@.len() == taken.len(),
                        taken.len() <= n,
                        chunk_geq(self@.info_rows, starting_id as int, n as nat) == taken
                            + chunk_geq(
                            self@.info_rows.skip(i as int),
                            starting_id as int,
                            (n - taken.len()) as nat,
                        ),
                        forall|k: int|
                            0 <= k < taken.len() ==> {
                                &&& (#[trigger] out@[k]).spec_id() == taken[k].id
                                &&& self@.assembles(taken[k], out@[k].spec_info())
                                &&& out@[k].spec_content_size() is None
                                &&& !out@[k].spec_downloading()
                            },
                    decreases self@.info_rows.len() - i,
                {
                    let ghost rest = self@.info_rows.skip(i as int);
                    let ghost budget = (n - taken.len()) as nat;
                    let row_id = self.info_rows[i].id;
                    if row_id >= starting_id {
                        let info = self.assemble_record(i);
                        out.push(ManagedVideo::new(row_id, info));
                        proof {
                            taken = taken.push(self@.info_rows[i as int]);
                        }
                    }
                    proof {
                        assert(rest[0] == self@.info_rows[i as int]);
                        assert(rest.skip(1) =~= self@.info_rows.skip(i + 1));
                        if row_id >= starting_id {
                            assert(chunk_geq(rest, starting_id as int, budget) == seq![rest[0]]
                                + chunk_geq(rest.skip(1), starting_id as int, (budget - 1) as nat));
                            assert(taken + chunk_geq(
                                self@.info_rows.skip(i + 1),
                                starting_id as int,
                                (budget - 1) as nat,
                            ) =~= taken.drop_last() + chunk_geq(rest, starting_id as int, budget));
                        }
                    }
                    i += 1;
                }
                proof {
                    if out@.len() < n {
                        assert(i == self@.info_rows.len());
                        assert(self@.info_rows.skip(i as int) =~= Seq::<InfoRow>::empty());
                    }
                    assert(chunk_geq(
                        self@.info_rows.skip(i as int),
                        starting_id as int,
                        (n - taken.len()) as nat,
                    ) == Seq::<InfoRow>::empty());
                    assert(chunk_geq(self@.info_rows, starting_id as int, n as nat) =~= taken);
                }
            },
            FetchOrd::LEQandDESC => {
                let mut j: usize = self.info_rows.len();
                proof {
                    assert(self@.info_rows.take(self@.info_rows.len() as int) =~= self@.info_rows);
                    assert(taken + chunk_leq(self@.info_rows, starting_id as int, n as nat)
                        =~= chunk_leq(self@.info_rows, starting_id as int, n as nat));
                }
                while j > 0 && out.len() < n
                    invariant
                        self.wf(),
                        j <= self@.info_rows.len(),
                        out@.len() == taken.len(),
                        taken.len() <= n,
                        chunk_leq(self@.info_rows, starting_id as int, n as nat) == taken
                            + chunk_leq(
                            self@.info_rows.take(j as int),
                            starting_id as int,
                            (n - taken.len()) as nat,
                        ),
                        forall|k: int|
                            0 <= k < taken.len() ==> {
                                &&& (#[trigger] out@[k]).spec_id() == taken[k].id
                                &&& self@.assembles(taken[k], out@[k].spec_info())
                                &&& out@[k].spec_content_size() is None
                                &&& !out@[k].spec_downloading()
                            },
                    decreases j,
                {
                    let ghost prefix = self@.info_rows.take(j as int);
                    let ghost budget = (n - taken.len()) as nat;
                    let idx = j - 1;
                    let row_id = self.info_rows[idx].id;
                    if row_id <= starting_id {
                        let info = self.assemble_record(idx);
                        out.push(ManagedVideo::new(row_id, info));
                        proof {
                            taken = taken.push(self@.info_rows[idx as int]);
                        }
                    }
                    proof {
                        assert(prefix.last() == self@.info_rows[idx as int]);
                        assert(prefix.drop_last() =~= self@.info_rows.take(idx as int));
                        if row_id <= starting_id {
                            assert(chunk_leq(prefix, starting_id as int, budget) == seq![
                                prefix.last(),
                            ] + chunk_leq(
                                prefix.drop_last(),
                                starting_id as int,
                                (budget - 1) as nat,
                            ));
                            assert(taken + chunk_leq(
                                self@.info_rows.take(idx as int),
                                starting_id as int,
                                (budget - 1) as nat,
                            ) =~= taken.drop_last() + chunk_leq(prefix, starting_id as int, budget));
                        }
                    }
                    j = idx;
                }
                proof {
                    if out@.len() < n {
                        assert(j == 0);
                        assert(self@.info_rows.take(0) =~= Seq::<InfoRow>::empty());
                    }
                    assert(chunk_leq(
                        self@.info_rows.take(j as int),
                        starting_id as int,
                        (n - taken.len()) as nat,
                    ) == Seq::<InfoRow>::empty());
                    assert(chunk_leq(self@.info_rows, starting_id as int, n as nat) =~= taken);
                }
            },
        }
        proof {
            if self@.qualifying_rows(starting_id as int, ord).len() <= num_entries as nat {
                lemma_chunk_returns_all_qualifying(
                    self@,
                    starting_id as int,
                    num_entries as nat,
                    ord,
                );
            }
        }
        out
    }

    /// Fetch a chunk with the default page size; otherwise exactly like
    /// [`Database::fetch_chunk_of`].
    pub fn fetch_chunk(&self, starting_id: i32, ord: FetchOrd) -> (chunk: Vec<ManagedVideo>)
        requires
            self.wf(),
            self@.migrated,
        ensures
            self@.is_chunk_result(starting_id as int, DEFAULT_CHUNK_SIZE as nat, ord, chunk@),
    {
        self.fetch_chunk_of(starting_id, DEFAULT_CHUNK_SIZE, ord)
    }

    /// The first page of history from the top: a forward fetch starting at
    /// the smallest id the store ever assigns, with the default page size.
    pub fn fetch_first_chunk_from_top(&self) -> (chunk: Vec<ManagedVideo>)
        requires
            self.wf(),
            self@.migrated,
        ensures
            self@.is_chunk_result(1, DEFAULT_CHUNK_SIZE as nat, FetchOrd::GEQandASC, chunk@),
    {
        self.fetch_chunk(1, FetchOrd::GEQandASC)
    }

    /// The last page of history: the highest-id rows, nearest the bottom
    /// first, with the default page size. No row id can exceed the id
    /// column's maximum, so this is a backward fetch seeded there; the rows
    /// qualifying under that bound are the whole table, bottom first.
    pub fn fetch_first_chunk_from_bottom(&self) -> (chunk: Vec<ManagedVideo>)
        requires
            self.wf(),
            self@.migrated,
        ensures
            self@.is_chunk_result(
                i32::MAX as int,
                DEFAULT_CHUNK_SIZE as nat,
                FetchOrd::LEQandDESC,
                chunk@,
            ),
            self@.qualifying_rows(i32::MAX as int, FetchOrd::LEQandDESC)
                == self@.info_rows.reverse(),
    {
        let chunk = self.fetch_chunk(i32::MAX, FetchOrd::LEQandDESC);
        proof {
            lemma_rows_leq_covers_all(self@.info_rows, i32::MAX as int);
        }
        chunk
    }

    /// Delete the parent row with the matching id, reporting how many rows
    /// were removed: 1 when the id was present, 0 when it was not — deleting
    /// a missing id is a successful no-op, never an error. Child rows are
    /// not cascaded: a deleted entry's variants stay behind as orphans, and
    /// since ids are never reused they can never attach to a later entry.
    pub fn delete_video_info(&mut self, id: i32) -> (deleted: u64)
        requires
            old(self).wf(),
            old(self)@.migrated,
        ensures
            final(self).wf(),
            deleted == (if old(self)@.has_row(id as int) {
                1u64
            } else {
                0u64
            }),
            final(self)@.info_rows == remove_row(old(self)@.info_rows, id as int),
            final(self)@.format_rows == old(self)@.format_rows,
            final(self)@.next_id == old(self)@.next_id,
            final(self)@.migrated == old(self)@.migrated,
    {
        let mut i: usize = 0;
        while i < self.info_rows.len()
            invariant
                *self == *old(self),
                self.wf(),
                i <= self@.info_rows.len(),
                forall|k: int| 0 <= k < i ==> (#[trigger] self@.info_rows[k]).id != id,
            decreases self@.info_rows.len() - i,
        {
            if self.info_rows[i].id == id {
                proof {
                    let rows0 = old(self)@.info_rows;
                    assert(old(self)@.has_row(id as int));
                    assert forall|k: int| 0 <= k < rows0.len() && k != i as int implies (
                    #[trigger] rows0[k]).id != id by {
                        if k < i as int {
                            assert(rows0[k].id < rows0[i as int].id);
                        } else {
                            assert(rows0[i as int].id < rows0[k].id);
                        }
                    }
                    lemma_remove_row_at(rows0, id as int, i as int);
                }
                self.info_rows.remove(i);
                proof {
                    let rows0 = old(self)@.info_rows;
                    let rows1 = self@.info_rows;
                    assert(rows1 == rows0.remove(i as int));
                    assert forall|a: int, b: int|
                        #![trigger rows1[a], rows1[b]]
                        0 <= a < b < rows1.len() implies rows1[a].id < rows1[b].id by {
                        let a0: int = if a < i as int {
                            a
                        } else {
                            a + 1
                        };
                        let b0: int = if b < i as int {
                            b
                        } else {
                            b + 1
                        };
                        assert(rows1[a] == rows0[a0]);
                        assert(rows1[b] == rows0[b0]);
                        assert(rows0[a0].id < rows0[b0].id);
                    }
                    assert forall|a: int| 0 <= a < rows1.len() implies 1 <= (
                    #[trigger] rows1[a]).id < self@.next_id by {
                        let a0: int = if a < i as int {
                            a
                        } else {
                            a + 1
                        };
                        assert(rows1[a] == rows0[a0]);
                    }
                    assert(self@.format_rows == old(self)@.format_rows);
                    assert forall|a: int| 0 <= a < self@.format_rows.len() implies 1 <= (
                    #[trigger] self@.format_rows[a]).video_info_id < self@.next_id by {
                        assert(1 <= old(self)@.format_rows[a].video_info_id < old(self)@.next_id);
                    }
                    assert(self.wf());
                }
                return 1;
            }
            i += 1;
        }
        proof {
            lemma_remove_row_absent_noop(old(self)@.info_rows, id as int);
            assert(!old(self)@.has_row(id as int));
        }
        0
    }

    /// Delete every entry, reporting how many parent rows were present
    /// immediately before the call. Child rows stay behind (no cascade), and
    /// the id counter does not reset: later inserts keep receiving fresh
    /// ids.
    pub fn delete_all(&mut self) -> (deleted: u64)
        requires
            old(self).wf(),
            old(self)@.migrated,
        ensures
            final(self).wf(),
            deleted as int == old(self)@.info_rows.len(),
            final(self)@.info_rows == Seq::<InfoRow>::empty(),
            final(self)@.format_rows == old(self)@.format_rows,
            final(self)@.next_id == old(self)@.next_id,
            final(self)@.migrated == old(self)@.migrated,
    {
        let deleted = self.info_rows.len() as u64;
        self.info_rows = Vec::new();
        proof {
            assert(self@.info_rows =~= Seq::<InfoRow>::empty());
            assert(self@.format_rows == old(self)@.format_rows);
            assert forall|a: int| 0 <= a < self@.format_rows.len() implies 1 <= (
            #[trigger] self@.format_rows[a]).video_info_id < self@.next_id by {
                assert(1 <= old(self)@.format_rows[a].video_info_id < old(self)@.next_id);
            }
            assert(self.wf());
        }
        deleted
    }
}

} // verus!
