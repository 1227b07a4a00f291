//! Remote players and zombies: interpolation buffers, and which entities a
//! snapshot updates, spawns and removes.

use std::collections::{HashSet, VecDeque};
use vstd::prelude::*;
use crate::scalar::{F32, F64};
use crate::wire::{QPos, WirePlayer, WireZombie};

verus! {

/// Most interpolation samples kept per entity.
pub const SAMPLE_CAP: usize = 12;

/// Highest zombie kind the client can draw.
pub const TOP_KIND: u8 = 2;

/// Bit pattern of 2.5: how far, in metres, a shot's end may be from the zombie
/// that flashes.
pub const HIT_FLASH_REACH_BITS: u32 = 0x4020_0000;

/// Bit pattern of 16.0: how far, in metres, growls carry.
pub const GROWL_RANGE_BITS: u32 = 0x4180_0000;

/// Where an entity was when a snapshot arrived. Players carry 16-bit yaws,
/// zombies 8-bit ones.
#[derive(Clone, Copy, Debug, PartialEq, Eq, Structural)]
pub struct Sample {
    pub t: F64,
    pub pos: QPos,
    pub yaw: u16,
}

/// Appends a sample and keeps the newest ones.
pub fn push_sample(buf: &mut VecDeque<Sample>, sample: Sample)
    ensures
        final(buf)@ == crate::predict::newest(old(buf)@.push(sample), SAMPLE_CAP as int),
        0 < final(buf)@.len() <= SAMPLE_CAP,
        final(buf)@.last() == sample,
        forall|i: int|
            0 <= i < final(buf)@.len() - 1 ==> #[trigger] final(buf)@[i] == old(buf)@[old(buf)@.len()
                + 1 - final(buf)@.len() + i],
        old(buf)@.len() < SAMPLE_CAP ==> final(buf)@.len() == old(buf)@.len() + 1,
{
    let ghost all = buf@.push(sample);
    buf.push_back(sample);
    assert(all.skip(0) =~= all);
    while buf.len() > SAMPLE_CAP
        invariant
            buf@ == all.skip(all.len() - buf@.len()),
            buf@.len() <= all.len(),
            buf@.len() >= SAMPLE_CAP || buf@.len() == all.len(),
        decreases buf@.len(),
    {
        let ghost before = buf@;
        buf.pop_front();
        assert(buf@ =~= before.skip(1));
        assert(buf@ =~= all.skip(all.len() - buf@.len()));
    }
}

/// Samples from the last one at or before `target` on.
pub open spec fn from_bracket(s: Seq<Sample>, target: F64) -> Seq<Sample>
    decreases s.len(),
{
    if s.len() >= 2 && s[1].t.at_most(target) {
        from_bracket(s.skip(1), target)
    } else {
        s
    }
}

/// What an entity shows at some moment.
#[derive(Clone, Copy, Debug, PartialEq, Eq, Structural)]
pub enum Pose {
    /// Exactly this sample.
    Hold(Sample),
    /// Between these two, by time.
    Between(Sample, Sample),
}

/// What the samples from the bracket on show at `target`.
pub open spec fn pose_at(s: Seq<Sample>, target: F64) -> Option<Pose> {
    if s.len() == 0 {
        None
    } else if s.len() == 1 || target.at_most(s[0].t) {
        Some(Pose::Hold(s[0]))
    } else {
        Some(Pose::Between(s[0], s[1]))
    }
}

/// Drops samples older than the pair around `target`, and says what to show.
pub fn interp_into(buf: &mut VecDeque<Sample>, target: F64) -> (r: Option<Pose>)
    ensures
        final(buf)@ == from_bracket(old(buf)@, target),
        r == pose_at(from_bracket(old(buf)@, target), target),
{
    let ghost s = buf@;
    while buf.len() >= 2 && buf[1].t.le(target)
        invariant
            from_bracket(s, target) == from_bracket(buf@, target),
        decreases buf@.len(),
    {
        let ghost before = buf@;
        buf.pop_front();
        assert(buf@ =~= before.skip(1));
    }
    if buf.len() == 0 {
        None
    } else if buf.len() == 1 || target.le(buf[0].t) {
        Some(Pose::Hold(buf[0]))
    } else {
        Some(Pose::Between(buf[0], buf[1]))
    }
}

/// Where two samples are blended, the moment shown lies strictly between them.
pub proof fn law_blended_samples_bracket_the_moment(s: Seq<Sample>, target: F64)
    requires
        !target.nan(),
        forall|i: int| 0 <= i < s.len() ==> !(#[trigger] s[i]).t.nan(),
    ensures
        match pose_at(from_bracket(s, target), target) {
            Some(Pose::Between(a, b)) => a.t.rank() < target.rank() < b.t.rank(),
            _ => true,
        },
{
    lemma_bracket_is_suffix(s, target);
}

/// Trimming never drops the newest sample: an entity that was ever seen always
/// has something to show.
pub proof fn law_newest_sample_survives_trimming(s: Seq<Sample>, target: F64)
    requires
        s.len() > 0,
    ensures
        from_bracket(s, target).len() > 0,
        from_bracket(s, target).last() == s.last(),
        pose_at(from_bracket(s, target), target) is Some,
{
    lemma_bracket_is_suffix(s, target);
}

proof fn lemma_bracket_is_suffix(s: Seq<Sample>, target: F64)
    ensures
        ({
            let b = from_bracket(s, target);
            &&& b.len() <= s.len()
            &&& b == s.skip(s.len() - b.len())
            &&& s.len() > 0 ==> b.len() > 0
            &&& b.len() >= 2 ==> !b[1].t.at_most(target)
        }),
    decreases s.len(),
{
    if s.len() >= 2 && s[1].t.at_most(target) {
        lemma_bracket_is_suffix(s.skip(1), target);
        let b = from_bracket(s, target);
        assert(s.skip(1).skip(s.skip(1).len() - b.len()) =~= s.skip(s.len() - b.len()));
    } else {
        assert(s.skip(0) =~= s);
    }
}

/// A remote player.
#[derive(Debug)]
pub struct RemotePlayer {
    pub slot: u8,
    pub buf: VecDeque<Sample>,
}

/// The sample a snapshot row of a player gives.
pub open spec fn player_sample(row: WirePlayer, now: F64) -> Sample {
    Sample { t: now, pos: row.pos, yaw: row.yaw }
}

impl RemotePlayer {
    pub fn new(slot: u8) -> (r: Self)
        ensures
            r.slot == slot,
            r.buf@ == Seq::<Sample>::empty(),
    {
        RemotePlayer { slot, buf: VecDeque::new() }
    }

    /// Takes a snapshot row.
    pub fn absorb(&mut self, row: &WirePlayer, now: F64)
        ensures
            final(self).slot == old(self).slot,
            final(self).buf@ == crate::predict::newest(
                old(self).buf@.push(player_sample(*row, now)),
                SAMPLE_CAP as int,
            ),
            final(self).buf@.len() > 0,
            final(self).buf@.last().t == now,
            final(self).buf@.last().pos.x == row.pos.x,
            final(self).buf@.last().pos.y == row.pos.y,
            final(self).buf@.last().pos.z == row.pos.z,
            final(self).buf@.last().yaw == row.yaw,
    {
        push_sample(&mut self.buf, Sample { t: now, pos: row.pos, yaw: row.yaw });
    }
}

/// A zombie.
#[derive(Debug)]
pub struct RemoteZombie {
    pub id: u16,
    pub kind: u8,
    /// 1 while winding up an attack.
    pub state: u8,
    pub buf: VecDeque<Sample>,
}

/// The sample a snapshot row of a zombie gives.
pub open spec fn zombie_sample(row: WireZombie, now: F64) -> Sample {
    Sample { t: now, pos: row.pos, yaw: row.yaw as u16 }
}

/// Kinds the client cannot draw show as the highest one it can.
pub open spec fn drawn_kind(kind: u8) -> u8 {
    if kind > TOP_KIND {
        TOP_KIND
    } else {
        kind
    }
}

impl RemoteZombie {
    pub fn new(id: u16, kind: u8) -> (r: Self)
        ensures
            r.id == id,
            r.kind == kind,
            r.state == 0,
            r.buf@ == Seq::<Sample>::empty(),
    {
        RemoteZombie { id, kind, state: 0, buf: VecDeque::new() }
    }

    /// Takes a snapshot row.
    pub fn absorb(&mut self, row: &WireZombie, now: F64)
        ensures
            final(self).id == old(self).id,
            final(self).kind == drawn_kind(row.kind),
            final(self).state == row.state,
            final(self).buf@ == crate::predict::newest(
                old(self).buf@.push(zombie_sample(*row, now)),
                SAMPLE_CAP as int,
            ),
            final(self).buf@.len() > 0,
            final(self).buf@.last().t == now,
            final(self).buf@.last().pos.x == row.pos.x,
            final(self).buf@.last().pos.y == row.pos.y,
            final(self).buf@.last().pos.z == row.pos.z,
            final(self).buf@.last().yaw == row.yaw,
            row.kind <= TOP_KIND ==> final(self).kind == row.kind,
            row.kind > TOP_KIND ==> final(self).kind == TOP_KIND,
    {
        self.state = row.state;
        self.kind = if row.kind > TOP_KIND { TOP_KIND } else { row.kind };
        push_sample(&mut self.buf, Sample { t: now, pos: row.pos, yaw: row.yaw as u16 });
    }
}

/// What a snapshot row does to the scene.
#[derive(Clone, Copy, Debug, PartialEq, Eq, Structural)]
pub enum Upsert {
    /// Entity `entity` takes row `row`.
    Update { entity: usize, row: usize },
    /// A new entity for row `row`.
    Spawn { row: usize },
}

/// The first place at or after `i` that holds `id`.
pub open spec fn place_from(ids: Seq<u16>, id: u16, i: int) -> Option<int>
    decreases ids.len() - i,
{
    if i >= ids.len() {
        None
    } else if ids[i] == id {
        Some(i)
    } else {
        place_from(ids, id, i + 1)
    }
}

/// What a row with this id does.
pub open spec fn upsert_for(ids: Seq<u16>, id: u16, row: int) -> Upsert {
    match place_from(ids, id, 0) {
        Some(i) => Upsert::Update { entity: i as usize, row: row as usize },
        None => Upsert::Spawn { row: row as usize },
    }
}

/// What the wanted ones among the first `n` rows do, in row order.
pub open spec fn upserts(ids: Seq<u16>, rows: Seq<u16>, wanted: Seq<bool>, n: int) -> Seq<Upsert>
    decreases n,
{
    if n <= 0 {
        Seq::empty()
    } else if wanted[n - 1] {
        upserts(ids, rows, wanted, n - 1).push(upsert_for(ids, rows[n - 1], n - 1))
    } else {
        upserts(ids, rows, wanted, n - 1)
    }
}

/// Some wanted row has this id.
pub open spec fn listed(rows: Seq<u16>, wanted: Seq<bool>, id: u16) -> bool {
    exists|r: int| 0 <= r < rows.len() && #[trigger] rows[r] == id && wanted[r]
}

/// Which of the first `n` entities no wanted row lists any more, in order.
pub open spec fn gone(ids: Seq<u16>, rows: Seq<u16>, wanted: Seq<bool>, n: int) -> Seq<usize>
    decreases n,
{
    if n <= 0 {
        Seq::empty()
    } else if !listed(rows, wanted, ids[n - 1]) {
        gone(ids, rows, wanted, n - 1).push((n - 1) as usize)
    } else {
        gone(ids, rows, wanted, n - 1)
    }
}

/// The ids of a snapshot's players.
pub open spec fn player_ids(rows: Seq<WirePlayer>) -> Seq<u16> {
    Seq::new(rows.len(), |i: int| rows[i].slot as u16)
}

/// Every player but this one is drawn.
pub open spec fn others(rows: Seq<WirePlayer>, my_slot: u8) -> Seq<bool> {
    Seq::new(rows.len(), |i: int| rows[i].slot != my_slot)
}

/// The ids of a snapshot's zombies.
pub open spec fn zombie_ids(rows: Seq<WireZombie>) -> Seq<u16> {
    Seq::new(rows.len(), |i: int| rows[i].id)
}

/// Every zombie is drawn.
pub open spec fn all_of(n: nat) -> Seq<bool> {
    Seq::new(n, |i: int| true)
}

/// How a snapshot changes the entities of one sort.
#[derive(Debug, PartialEq, Eq)]
pub struct ScenePlan {
    pub upserts: Vec<Upsert>,
    /// Entities to remove.
    pub gone: Vec<usize>,
}

fn place_of(ids: &Vec<u16>, id: u16) -> (r: Option<usize>)
    ensures
        match r {
            Some(i) => place_from(ids@, id, 0) == Some(i as int),
            None => place_from(ids@, id, 0) is None,
        },
{
    for i in 0..ids.len()
        invariant
            place_from(ids@, id, 0) == place_from(ids@, id, i as int),
    {
        if ids[i] == id {
            return Some(i);
        }
    }
    None
}

fn is_listed(rows: &Vec<u16>, wanted: &Vec<bool>, id: u16) -> (r: bool)
    requires
        rows@.len() == wanted@.len(),
    ensures
        r == listed(rows@, wanted@, id),
{
    for i in 0..rows.len()
        invariant
            rows@.len() == wanted@.len(),
            forall|j: int| 0 <= j < i ==> !(#[trigger] rows@[j] == id && wanted@[j]),
    {
        if rows[i] == id && wanted[i] {
            return true;
        }
    }
    false
}

fn plan(ids: &Vec<u16>, rows: &Vec<u16>, wanted: &Vec<bool>) -> (r: ScenePlan)
    requires
        rows@.len() == wanted@.len(),
    ensures
        r.upserts@ == upserts(ids@, rows@, wanted@, rows@.len() as int),
        r.gone@ == gone(ids@, rows@, wanted@, ids@.len() as int),
{
    let mut ups: Vec<Upsert> = Vec::new();
    for i in 0..rows.len()
        invariant
            rows@.len() == wanted@.len(),
            ups@ == upserts(ids@, rows@, wanted@, i as int),
    {
        if wanted[i] {
            match place_of(ids, rows[i]) {
                Some(e) => {
                    ups.push(Upsert::Update { entity: e, row: i });
                },
                None => {
                    ups.push(Upsert::Spawn { row: i });
                },
            }
        }
    }
    let mut away: Vec<usize> = Vec::new();
    for i in 0..ids.len()
        invariant
            rows@.len() == wanted@.len(),
            away@ == gone(ids@, rows@, wanted@, i as int),
    {
        if !is_listed(rows, wanted, ids[i]) {
            away.push(i);
        }
    }
    ScenePlan { upserts: ups, gone: away }
}

/// How a snapshot changes the remote players, given the slots of those in the
/// scene.
pub fn plan_players(slots: &Vec<u16>, rows: &Vec<WirePlayer>, my_slot: u8) -> (r: ScenePlan)
    ensures
        r.upserts@ == upserts(
            slots@,
            player_ids(rows@),
            others(rows@, my_slot),
            rows@.len() as int,
        ),
        r.gone@ == gone(
            slots@,
            player_ids(rows@),
            others(rows@, my_slot),
            slots@.len() as int,
        ),
{
    let mut ids: Vec<u16> = Vec::new();
    let mut wanted: Vec<bool> = Vec::new();
    for i in 0..rows.len()
        invariant
            ids@ == player_ids(rows@).take(i as int),
            wanted@ == others(rows@, my_slot).take(i as int),
    {
        ids.push(rows[i].slot as u16);
        wanted.push(rows[i].slot != my_slot);
        assert(ids@ =~= player_ids(rows@).take(i + 1));
        assert(wanted@ =~= others(rows@, my_slot).take(i + 1));
    }
    assert(ids@ =~= player_ids(rows@));
    assert(wanted@ =~= others(rows@, my_slot));
    plan(slots, &ids, &wanted)
}

/// How a snapshot changes the zombies, given the ids of those in the scene.
pub fn plan_zombies(ids: &Vec<u16>, rows: &Vec<WireZombie>) -> (r: ScenePlan)
    ensures
        r.upserts@ == upserts(
            ids@,
            zombie_ids(rows@),
            all_of(rows@.len()),
            rows@.len() as int,
        ),
        r.gone@ == gone(ids@, zombie_ids(rows@), all_of(rows@.len()), ids@.len() as int),
{
    let mut row_ids: Vec<u16> = Vec::new();
    let mut wanted: Vec<bool> = Vec::new();
    for i in 0..rows.len()
        invariant
            row_ids@ == zombie_ids(rows@).take(i as int),
            wanted@ == all_of(rows@.len()).take(i as int),
    {
        row_ids.push(rows[i].id);
        wanted.push(true);
        assert(row_ids@ =~= zombie_ids(rows@).take(i + 1));
        assert(wanted@ =~= all_of(rows@.len()).take(i + 1));
    }
    assert(row_ids@ =~= zombie_ids(rows@));
    assert(wanted@ =~= all_of(rows@.len()));
    plan(ids, &row_ids, &wanted)
}

/// An entity with this id is in the scene after the plan was carried out.
pub open spec fn present_after(ids: Seq<u16>, rows: Seq<u16>, wanted: Seq<bool>, id: u16) -> bool {
    ||| exists|i: int|
        0 <= i < ids.len() && #[trigger] ids[i] == id && !gone(ids, rows, wanted, ids.len() as int)
            .contains(i as usize)
    ||| exists|k: int|
        0 <= k < upserts(ids, rows, wanted, rows.len() as int).len() && ({
            let up = #[trigger] upserts(ids, rows, wanted, rows.len() as int)[k];
            up is Spawn && rows[up->Spawn_row as int] == id
        })
}

/// After a snapshot the scene holds exactly the entities the snapshot lists.
pub proof fn law_scene_follows_snapshot(ids: Seq<u16>, rows: Seq<u16>, wanted: Seq<bool>, id: u16)
    requires
        rows.len() == wanted.len(),
        rows.len() <= usize::MAX,
        ids.len() <= usize::MAX,
    ensures
        present_after(ids, rows, wanted, id) <==> listed(rows, wanted, id),
{
    let ups = upserts(ids, rows, wanted, rows.len() as int);
    let away = gone(ids, rows, wanted, ids.len() as int);
    lemma_gone(ids, rows, wanted, ids.len() as int);
    lemma_upserts(ids, rows, wanted, rows.len() as int);
    if listed(rows, wanted, id) {
        lemma_place(ids, id, 0);
        let r = choose|r: int| 0 <= r < rows.len() && #[trigger] rows[r] == id && wanted[r];
        match place_from(ids, id, 0) {
            Some(i) => {
                assert(ids[i] == id);
                assert(!away.contains(i as usize));
            },
            None => {
                assert(ups.contains(upsert_for(ids, rows[r], r)));
                let k = choose|k: int| 0 <= k < ups.len() && ups[k] == upsert_for(ids, rows[r], r);
                assert(ups[k] is Spawn && rows[ups[k]->Spawn_row as int] == id);
            },
        }
    }
    if present_after(ids, rows, wanted, id) {
        if exists|i: int| 0 <= i < ids.len() && #[trigger] ids[i] == id && !away.contains(i as usize) {
            let i = choose|i: int|
                0 <= i < ids.len() && #[trigger] ids[i] == id && !away.contains(i as usize);
            assert(listed(rows, wanted, ids[i]));
        } else {
            let k = choose|k: int|
                0 <= k < ups.len() && ({
                    let up = #[trigger] ups[k];
                    up is Spawn && rows[up->Spawn_row as int] == id
                });
            assert(ups[k] is Spawn);
        }
    }
}

proof fn lemma_place(ids: Seq<u16>, id: u16, i: int)
    requires
        0 <= i <= ids.len(),
    ensures
        match place_from(ids, id, i) {
            Some(k) => i <= k < ids.len() && ids[k] == id,
            None => forall|k: int| i <= k < ids.len() ==> #[trigger] ids[k] != id,
        },
    decreases ids.len() - i,
{
    if i < ids.len() && ids[i] != id {
        lemma_place(ids, id, i + 1);
    }
}

proof fn lemma_gone(ids: Seq<u16>, rows: Seq<u16>, wanted: Seq<bool>, n: int)
    requires
        0 <= n <= ids.len() <= usize::MAX,
    ensures
        forall|i: int|
            0 <= i < n ==> (gone(ids, rows, wanted, n).contains(i as usize) <==> !listed(
                rows,
                wanted,
                #[trigger] ids[i],
            )),
        forall|k: int|
            0 <= k < gone(ids, rows, wanted, n).len() ==> (#[trigger] gone(ids, rows, wanted, n)[k])
                < n,
    decreases n,
{
    if n > 0 {
        lemma_gone(ids, rows, wanted, n - 1);
        let prev = gone(ids, rows, wanted, n - 1);
        let now = gone(ids, rows, wanted, n);
        assert forall|i: int| 0 <= i < n implies (now.contains(i as usize) <==> !listed(
            rows,
            wanted,
            #[trigger] ids[i],
        )) by {
            if !listed(rows, wanted, ids[n - 1]) {
                assert(now == prev.push((n - 1) as usize));
                if i < n - 1 {
                    if prev.contains(i as usize) {
                        let k = choose|k: int| 0 <= k < prev.len() && prev[k] == i as usize;
                        assert(now[k] == i as usize);
                    }
                    if now.contains(i as usize) {
                        let k = choose|k: int| 0 <= k < now.len() && now[k] == i as usize;
                        assert(k < prev.len());
                        assert(prev[k] == i as usize);
                    }
                } else {
                    assert(now[prev.len() as int] == i as usize);
                }
            } else if i == n - 1 {
                if prev.contains(i as usize) {
                    let k = choose|k: int| 0 <= k < prev.len() && prev[k] == i as usize;
                    assert(prev[k] < n - 1);
                }
            }
        }
    }
}

proof fn lemma_upserts(ids: Seq<u16>, rows: Seq<u16>, wanted: Seq<bool>, n: int)
    requires
        0 <= n <= rows.len() <= usize::MAX,
        rows.len() == wanted.len(),
    ensures
        forall|r: int|
            0 <= r < n && wanted[r] ==> upserts(ids, rows, wanted, n).contains(
                upsert_for(ids, #[trigger] rows[r], r),
            ),
        forall|k: int|
            0 <= k < upserts(ids, rows, wanted, n).len() && (#[trigger] upserts(
                ids,
                rows,
                wanted,
                n,
            )[k]) is Spawn ==> ({
                let row = upserts(ids, rows, wanted, n)[k]->Spawn_row as int;
                row < n && wanted[row]
            }),
    decreases n,
{
    if n > 0 {
        lemma_upserts(ids, rows, wanted, n - 1);
        let prev = upserts(ids, rows, wanted, n - 1);
        let now = upserts(ids, rows, wanted, n);
        assert forall|r: int| 0 <= r < n && wanted[r] implies now.contains(
            upsert_for(ids, #[trigger] rows[r], r),
        ) by {
            let u = upsert_for(ids, rows[r], r);
            if r < n - 1 {
                assert(prev.contains(u));
                let k = choose|k: int| 0 <= k < prev.len() && prev[k] == u;
                assert(now[k] == u);
            } else {
                assert(now[prev.len() as int] == u);
            }
        }
    }
}

/// The nearest of the first `n` distances that is not beyond `reach`; the first
/// one where several are equally near.
pub open spec fn nearest_within(dists: Seq<F32>, reach: F32, n: int) -> Option<int>
    decreases n,
{
    if n <= 0 {
        None
    } else {
        let best = nearest_within(dists, reach, n - 1);
        let d = dists[n - 1];
        if reach.below(d) {
            best
        } else {
            match best {
                Some(b) => if d.below(dists[b]) {
                    Some(n - 1)
                } else {
                    best
                },
                None => Some(n - 1),
            }
        }
    }
}

/// Which zombie flashes for a shot that ended at these distances from each.
pub fn hit_flash_target(dists: &Vec<F32>) -> (r: Option<usize>)
    ensures
        match nearest_within(dists@, F32 { bits: HIT_FLASH_REACH_BITS }, dists@.len() as int) {
            Some(i) => r is Some && r->0 == i && 0 <= i < dists@.len(),
            None => r is None,
        },
{
    let reach = F32::from_bits(HIT_FLASH_REACH_BITS);
    let mut best: Option<usize> = None;
    for i in 0..dists.len()
        invariant
            reach == (F32 { bits: HIT_FLASH_REACH_BITS }),
            match nearest_within(dists@, reach, i as int) {
                Some(b) => best is Some && best->0 == b && 0 <= b < i,
                None => best is None,
            },
    {
        let d = dists[i];
        if !reach.lt(d) {
            match best {
                Some(b) => {
                    if d.lt(dists[b]) {
                        best = Some(i);
                    }
                },
                None => {
                    best = Some(i);
                },
            }
        }
    }
    best
}

/// The flashing zombie is in reach, and none is nearer.
pub proof fn law_flash_target_is_nearest(dists: Seq<F32>, reach: F32, n: int, j: int)
    requires
        0 <= j < n <= dists.len(),
        !reach.nan(),
        forall|i: int| 0 <= i < n ==> !(#[trigger] dists[i]).nan(),
    ensures
        match nearest_within(dists, reach, n) {
            Some(i) => 0 <= i < n && dists[i].at_most(reach) && (dists[j].at_most(reach)
                ==> dists[i].at_most(dists[j])),
            None => !dists[j].at_most(reach),
        },
    decreases n,
{
    reveal_with_fuel(nearest_within, 2);
    if n - 1 > 0 {
        if j < n - 1 {
            law_flash_target_is_nearest(dists, reach, n - 1, j);
        } else {
            law_flash_target_is_nearest(dists, reach, n - 1, 0);
        }
    }
}

/// A hash of a zombie and a half-second bucket.
pub open spec fn growl_value(id: u16, bucket: u32) -> int {
    (id * 0x045D_9F3B + bucket * 0x27D4_EB2D) % 0x1_0000_0000
}

/// Whether a zombie growls in a half-second bucket: about one bucket in
/// eighteen.
pub fn should_growl(id: u16, bucket: u32) -> (r: bool)
    ensures
        r == (growl_value(id, bucket) % 18 == 0),
{
    let h: u32 = (id as u32).wrapping_mul(0x045D_9F3B).wrapping_add(bucket.wrapping_mul(0x27D4_EB2D));
    assert(h as int == growl_value(id, bucket)) by {
        let a = id * 0x045D_9F3B;
        let b = bucket * 0x27D4_EB2D;
        vstd::arithmetic::div_mod::lemma_add_mod_noop(a, b, 0x1_0000_0000);
    }
    h % 18 == 0
}

/// A zombie that could be heard.
#[derive(Clone, Copy, Debug, PartialEq, Eq, Structural)]
pub struct Growler {
    pub id: u16,
    /// Distance from the own body.
    pub dist: F32,
}

/// In range, and its hash says so.
pub open spec fn wants_to_growl(z: Growler, bucket: u32) -> bool {
    !(F32 { bits: GROWL_RANGE_BITS }).below(z.dist) && growl_value(z.id, bucket) % 18 == 0
}

/// The zombies that growled in this bucket once the first `n` were asked.
pub open spec fn growled(fired: Set<u16>, zombies: Seq<Growler>, bucket: u32, n: int) -> Set<u16>
    decreases n,
{
    if n <= 0 {
        fired
    } else if wants_to_growl(zombies[n - 1], bucket) {
        growled(fired, zombies, bucket, n - 1).insert(zombies[n - 1].id)
    } else {
        growled(fired, zombies, bucket, n - 1)
    }
}

/// Which of the first `n` zombies growl now, in order.
pub open spec fn growling(fired: Set<u16>, zombies: Seq<Growler>, bucket: u32, n: int) -> Seq<usize>
    decreases n,
{
    if n <= 0 {
        Seq::empty()
    } else if wants_to_growl(zombies[n - 1], bucket) && !growled(fired, zombies, bucket, n - 1)
        .contains(zombies[n - 1].id) {
        growling(fired, zombies, bucket, n - 1).push((n - 1) as usize)
    } else {
        growling(fired, zombies, bucket, n - 1)
    }
}

/// Who growled already in the current half-second bucket.
#[derive(Debug)]
pub struct GrowlMemory {
    pub bucket: u32,
    pub fired: HashSet<u16>,
}

impl Default for GrowlMemory {
    fn default() -> (r: Self)
        ensures
            r.bucket == 0,
            r.fired@ == Set::<u16>::empty(),
    {
        GrowlMemory { bucket: 0, fired: HashSet::new() }
    }
}

impl GrowlMemory {
    /// Who is remembered when a bucket begins or goes on.
    pub open spec fn carried(self, bucket: u32) -> Set<u16> {
        if self.bucket == bucket {
            self.fired@
        } else {
            Set::empty()
        }
    }

    /// Which zombies growl now. Each growls at most once per bucket; a new
    /// bucket forgets the old one.
    pub fn growls(&mut self, bucket: u32, zombies: &Vec<Growler>) -> (r: Vec<usize>)
        ensures
            final(self).bucket == bucket,
            final(self).fired@ == growled(
                old(self).carried(bucket),
                zombies@,
                bucket,
                zombies@.len() as int,
            ),
            r@ == growling(
                old(self).carried(bucket),
                zombies@,
                bucket,
                zombies@.len() as int,
            ),
    {
        broadcast use vstd::std_specs::hash::group_hash_axioms;

        let ghost start = self.carried(bucket);
        if self.bucket != bucket {
            self.bucket = bucket;
            self.fired.clear();
        }
        let range = F32::from_bits(GROWL_RANGE_BITS);
        let mut out: Vec<usize> = Vec::new();
        for i in 0..zombies.len()
            invariant
                range == (F32 { bits: GROWL_RANGE_BITS }),
                self.bucket == bucket,
                self.fired@ == growled(start, zombies@, bucket, i as int),
                out@ == growling(start, zombies@, bucket, i as int),
        {
            let z = zombies[i];
            if !range.lt(z.dist) && should_growl(z.id, bucket) {
                let ghost before = self.fired@;
                if self.fired.insert(z.id) {
                    out.push(i);
                } else {
                    assert(before.insert(z.id) =~= before);
                }
            }
        }
        out
    }
}

/// A zombie growls at most once per bucket: not if it did before in the bucket,
/// and not twice in one pass, even if listed twice.
pub proof fn law_one_growl_per_zombie_and_bucket(
    fired: Set<u16>,
    zombies: Seq<Growler>,
    bucket: u32,
    n: int,
    k: int,
    l: int,
)
    requires
        0 <= n <= zombies.len() <= usize::MAX,
        0 <= k < l < growling(fired, zombies, bucket, n).len(),
    ensures
        ({
            let g = growling(fired, zombies, bucket, n);
            &&& zombies[g[k] as int].id != zombies[g[l] as int].id
            &&& !fired.contains(zombies[g[k] as int].id)
            &&& !fired.contains(zombies[g[l] as int].id)
        }),
{
    lemma_growling(fired, zombies, bucket, n);
}

proof fn lemma_growling(fired: Set<u16>, zombies: Seq<Growler>, bucket: u32, n: int)
    requires
        0 <= n <= zombies.len() <= usize::MAX,
    ensures
        ({
            let g = growling(fired, zombies, bucket, n);
            let after = growled(fired, zombies, bucket, n);
            &&& forall|id: u16| fired.contains(id) ==> #[trigger] after.contains(id)
            &&& forall|k: int|
                0 <= k < g.len() ==> (#[trigger] g[k]) < n && after.contains(
                    zombies[g[k] as int].id,
                ) && !fired.contains(zombies[g[k] as int].id)
            &&& forall|k: int, l: int|
                0 <= k < l < g.len() ==> zombies[(#[trigger] g[k]) as int].id != zombies[(
                #[trigger] g[l]) as int].id
        }),
    decreases n,
{
    if n > 0 {
        lemma_growling(fired, zombies, bucket, n - 1);
        let g0 = growling(fired, zombies, bucket, n - 1);
        let g = growling(fired, zombies, bucket, n);
        let before = growled(fired, zombies, bucket, n - 1);
        let after = growled(fired, zombies, bucket, n);
        let id = zombies[n - 1].id;
        assert(forall|x: u16| before.contains(x) ==> #[trigger] after.contains(x));
        assert forall|x: u16| fired.contains(x) implies #[trigger] after.contains(x) by {
            assert(before.contains(x));
        }
        if wants_to_growl(zombies[n - 1], bucket) && !before.contains(id) {
            assert(g == g0.push((n - 1) as usize));
            assert(!fired.contains(id)) by {
                if fired.contains(id) {
                    assert(before.contains(id));
                }
            }
            assert forall|k: int| 0 <= k < g.len() implies (#[trigger] g[k]) < n && after.contains(
                zombies[g[k] as int].id,
            ) && !fired.contains(zombies[g[k] as int].id) by {
                if k < g0.len() {
                    assert(g[k] == g0[k]);
                    assert(before.contains(zombies[g0[k] as int].id));
                }
            }
            assert forall|k: int, l: int| 0 <= k < l < g.len() implies zombies[(
            #[trigger] g[k]) as int].id != zombies[(#[trigger] g[l]) as int].id by {
                assert(g[k] == g0[k]);
                assert(before.contains(zombies[g0[k] as int].id));
                if l < g0.len() {
                    assert(g[l] == g0[l]);
                }
            }
        } else {
            assert(g == g0);
        }
    }
}

/// A player is sampled where the server says: each coordinate, the yaw and the
/// time of arrival as they came.
pub proof fn law_players_are_where_the_server_says(row: WirePlayer, now: F64)
    ensures
        player_sample(row, now).t == now,
        player_sample(row, now).pos.x == row.pos.x,
        player_sample(row, now).pos.y == row.pos.y,
        player_sample(row, now).pos.z == row.pos.z,
        player_sample(row, now).yaw == row.yaw,
{
}

/// A zombie is sampled where the server says: each coordinate, the yaw and the
/// time of arrival as they came; kinds stay as they are up to the highest one
/// that can be drawn.
pub proof fn law_zombies_are_where_the_server_says(row: WireZombie, now: F64)
    ensures
        zombie_sample(row, now).t == now,
        zombie_sample(row, now).pos.x == row.pos.x,
        zombie_sample(row, now).pos.y == row.pos.y,
        zombie_sample(row, now).pos.z == row.pos.z,
        zombie_sample(row, now).yaw == row.yaw,
        row.kind <= TOP_KIND ==> drawn_kind(row.kind) == row.kind,
        drawn_kind(row.kind) <= TOP_KIND,
        row.kind > TOP_KIND ==> drawn_kind(row.kind) == TOP_KIND,
{
}

/// What is shown at a moment is bracketed by time: before the oldest sample kept
/// that sample, after the newest the newest, and in between the two neighbours
/// around the moment. Samples are shown as they were taken.
pub proof fn law_shown_samples_are_neighbours(s: Seq<Sample>, target: F64)
    requires
        s.len() > 0,
        !target.nan(),
        forall|i: int| 0 <= i < s.len() ==> !(#[trigger] s[i]).t.nan(),
        forall|i: int, j: int| 0 <= i < j < s.len() ==> (#[trigger] s[i]).t.rank() < (
        #[trigger] s[j]).t.rank(),
    ensures
        match pose_at(from_bracket(s, target), target) {
            Some(Pose::Hold(a)) => {
                ||| a == s[0] && target.rank() <= s[0].t.rank()
                ||| a == s.last() && target.rank() >= a.t.rank()
                ||| s.contains(a) && target.rank() == a.t.rank()
            },
            Some(Pose::Between(a, b)) => exists|i: int|
                0 <= i < s.len() - 1 && a == #[trigger] s[i] && b == s[i + 1] && a.t.rank()
                    < target.rank() < b.t.rank(),
            None => false,
        },
    decreases s.len(),
{
    if s.len() >= 2 && s[1].t.at_most(target) {
        let rest = s.skip(1);
        law_shown_samples_are_neighbours(rest, target);
        match pose_at(from_bracket(s, target), target) {
            Some(Pose::Hold(a)) => {
                assert(rest.last() == s.last());
                if a == rest[0] && target.rank() <= rest[0].t.rank() {
                    assert(s[1] == a);
                    assert(s.contains(a));
                }
                if rest.contains(a) {
                    let i = choose|i: int| 0 <= i < rest.len() && rest[i] == a;
                    assert(s[i + 1] == a);
                }
            },
            Some(Pose::Between(a, b)) => {
                let i = choose|i: int|
                    0 <= i < rest.len() - 1 && a == #[trigger] rest[i] && b == rest[i + 1]
                        && a.t.rank() < target.rank() < b.t.rank();
                assert(a == s[i + 1] && b == s[i + 2]);
            },
            None => {},
        }
    } else if s.len() >= 2 && !target.at_most(s[0].t) {
        assert(s[0].t.rank() < target.rank() < s[1].t.rank());
    }
}

/// Some row is of another player in this slot.
pub open spec fn has_other(rows: Seq<WirePlayer>, my_slot: u8, id: u16) -> bool {
    exists|r: int| 0 <= r < rows.len() && (#[trigger] rows[r]).slot == id && rows[r].slot != my_slot
}

/// Some row is of this zombie.
pub open spec fn has_zombie(rows: Seq<WireZombie>, id: u16) -> bool {
    exists|r: int| 0 <= r < rows.len() && (#[trigger] rows[r]).id == id
}

/// Somebody in the scene has this id.
pub open spec fn in_scene(ids: Seq<u16>, id: u16) -> bool {
    exists|e: int| 0 <= e < ids.len() && #[trigger] ids[e] == id
}

/// A plan's step is about this row and does right by it: it updates the entity
/// with the row's id, or spawns one where there is none.
pub open spec fn serves(up: Upsert, ids: Seq<u16>, row: int, id: u16) -> bool {
    match up {
        Upsert::Update { entity, row: r } => r == row && entity < ids.len() && ids[entity as int]
            == id,
        Upsert::Spawn { row: r } => r == row && !in_scene(ids, id),
    }
}

/// Every player of a snapshot but ourselves is drawn once: the entity in their
/// slot takes their row, or a new one is made; who is no longer listed is removed,
/// and nobody else.
pub proof fn law_scene_shows_the_other_players(
    slots: Seq<u16>,
    rows: Seq<WirePlayer>,
    my_slot: u8,
)
    requires
        rows.len() <= usize::MAX,
        slots.len() <= usize::MAX,
    ensures
        ({
            let n = rows.len() as int;
            let ups = upserts(slots, player_ids(rows), others(rows, my_slot), n);
            let away = gone(slots, player_ids(rows), others(rows, my_slot), slots.len() as int);
            &&& ups.len() == rows.filter(|row: WirePlayer| row.slot != my_slot).len()
            &&& forall|r: int|
                0 <= r < n && (#[trigger] rows[r]).slot != my_slot ==> exists|k: int|
                    0 <= k < ups.len() && serves(#[trigger] ups[k], slots, r, rows[r].slot as u16)
            &&& forall|e: int|
                0 <= e < slots.len() ==> (away.contains(e as usize) <==> !has_other(
                    rows,
                    my_slot,
                    #[trigger] slots[e],
                ))
        }),
{
    let n = rows.len() as int;
    let ids = player_ids(rows);
    let wanted = others(rows, my_slot);
    let ups = upserts(slots, ids, wanted, n);
    lemma_upserts(slots, ids, wanted, n);
    lemma_gone(slots, ids, wanted, slots.len() as int);
    assert forall|r: int| 0 <= r < n && (#[trigger] rows[r]).slot != my_slot implies exists|k: int|
        0 <= k < ups.len() && serves(#[trigger] ups[k], slots, r, rows[r].slot as u16) by {
        assert(ids[r] == rows[r].slot as u16 && wanted[r]);
        lemma_serves(slots, ids[r], r);
        let u = upsert_for(slots, ids[r], r);
        let k = choose|k: int| 0 <= k < ups.len() && ups[k] == u;
        assert(serves(ups[k], slots, r, rows[r].slot as u16));
    }
    assert forall|e: int| 0 <= e < slots.len() implies (listed(ids, wanted, #[trigger] slots[e])
        <==> has_other(rows, my_slot, slots[e])) by {
        if listed(ids, wanted, slots[e]) {
            let r = choose|r: int| 0 <= r < ids.len() && #[trigger] ids[r] == slots[e] && wanted[r];
            assert(rows[r].slot == slots[e]);
        }
        if has_other(rows, my_slot, slots[e]) {
            let r = choose|r: int|
                0 <= r < rows.len() && (#[trigger] rows[r]).slot == slots[e] && rows[r].slot
                    != my_slot;
            assert(ids[r] == slots[e] && wanted[r]);
        }
    }
    lemma_players_counted(slots, rows, my_slot, n);
    assert(rows.take(n) =~= rows);
}

proof fn lemma_players_counted(slots: Seq<u16>, rows: Seq<WirePlayer>, my_slot: u8, n: int)
    requires
        0 <= n <= rows.len(),
    ensures
        upserts(slots, player_ids(rows), others(rows, my_slot), n).len() == rows.take(n).filter(
            |row: WirePlayer| row.slot != my_slot,
        ).len(),
    decreases n,
{
    reveal(Seq::filter);
    if n > 0 {
        lemma_players_counted(slots, rows, my_slot, n - 1);
        assert(rows.take(n).drop_last() =~= rows.take(n - 1));
        assert(rows.take(n).last() == rows[n - 1]);
    }
}

proof fn lemma_serves(ids: Seq<u16>, id: u16, row: int)
    requires
        ids.len() <= usize::MAX,
        0 <= row <= usize::MAX,
    ensures
        serves(upsert_for(ids, id, row), ids, row, id),
{
    lemma_place(ids, id, 0);
}

/// Every zombie of a snapshot is drawn once: the entity with its id takes its row,
/// or a new one is made; what is no longer listed is removed, and nothing else.
pub proof fn law_scene_shows_the_zombies(ids: Seq<u16>, rows: Seq<WireZombie>)
    requires
        rows.len() <= usize::MAX,
        ids.len() <= usize::MAX,
    ensures
        ({
            let n = rows.len() as int;
            let ups = upserts(ids, zombie_ids(rows), all_of(rows.len()), n);
            let away = gone(ids, zombie_ids(rows), all_of(rows.len()), ids.len() as int);
            &&& ups.len() == n
            &&& forall|r: int|
                0 <= r < n ==> serves(#[trigger] ups[r], ids, r, rows[r].id)
            &&& forall|e: int|
                0 <= e < ids.len() ==> (away.contains(e as usize) <==> !has_zombie(
                    rows,
                    #[trigger] ids[e],
                ))
        }),
{
    let n = rows.len() as int;
    let row_ids = zombie_ids(rows);
    let wanted = all_of(rows.len());
    lemma_gone(ids, row_ids, wanted, ids.len() as int);
    lemma_zombies_served(ids, rows, n);
    assert forall|e: int| 0 <= e < ids.len() implies (listed(row_ids, wanted, #[trigger] ids[e])
        <==> has_zombie(rows, ids[e])) by {
        if listed(row_ids, wanted, ids[e]) {
            let r = choose|r: int|
                0 <= r < row_ids.len() && #[trigger] row_ids[r] == ids[e] && wanted[r];
            assert(rows[r].id == ids[e]);
        }
        if has_zombie(rows, ids[e]) {
            let r = choose|r: int| 0 <= r < rows.len() && (#[trigger] rows[r]).id == ids[e];
            assert(row_ids[r] == ids[e] && wanted[r]);
        }
    }
}

proof fn lemma_zombies_served(ids: Seq<u16>, rows: Seq<WireZombie>, n: int)
    requires
        0 <= n <= rows.len() <= usize::MAX,
        ids.len() <= usize::MAX,
    ensures
        ({
            let ups = upserts(ids, zombie_ids(rows), all_of(rows.len()), n);
            &&& ups.len() == n
            &&& forall|r: int| 0 <= r < n ==> serves(#[trigger] ups[r], ids, r, rows[r].id)
        }),
    decreases n,
{
    if n > 0 {
        lemma_zombies_served(ids, rows, n - 1);
        lemma_serves(ids, rows[n - 1].id, n - 1);
        let before = upserts(ids, zombie_ids(rows), all_of(rows.len()), n - 1);
        let ups = upserts(ids, zombie_ids(rows), all_of(rows.len()), n);
        assert(all_of(rows.len())[n - 1]);
        assert forall|r: int| 0 <= r < n implies serves(#[trigger] ups[r], ids, r, rows[r].id) by {
            if r < n - 1 {
                assert(ups[r] == before[r]);
            }
        }
    }
}

/// A zombie growls exactly if it is in range, the bucket is its own, and it has
/// not growled in this bucket; and then it has.
pub proof fn law_growls_are_near_and_remembered(
    fired: Set<u16>,
    zombies: Seq<Growler>,
    bucket: u32,
    n: int,
    i: int,
)
    requires
        0 <= i < n <= zombies.len() <= usize::MAX,
    ensures
        ({
            let z = zombies[i];
            let heard = growling(fired, zombies, bucket, n).contains(i as usize);
            let near = !(F32 { bits: GROWL_RANGE_BITS }).below(z.dist);
            &&& heard ==> near && growl_value(z.id, bucket) % 18 == 0 && !fired.contains(z.id)
            &&& heard ==> growled(fired, zombies, bucket, n).contains(z.id)
            &&& near && growl_value(z.id, bucket) % 18 == 0 && !fired.contains(z.id) && (forall|
                j: int,
            |
                0 <= j < i ==> (#[trigger] zombies[j]).id != z.id) ==> heard
        }),
    decreases n,
{
    lemma_growling(fired, zombies, bucket, n);
    lemma_growling(fired, zombies, bucket, n - 1);
    let g0 = growling(fired, zombies, bucket, n - 1);
    let g = growling(fired, zombies, bucket, n);
    if i < n - 1 {
        law_growls_are_near_and_remembered(fired, zombies, bucket, n - 1, i);
        if g0.contains(i as usize) {
            let k = choose|k: int| 0 <= k < g0.len() && g0[k] == i as usize;
            assert(g[k] == i as usize);
        }
        if g.contains(i as usize) {
            let k = choose|k: int| 0 <= k < g.len() && g[k] == i as usize;
            assert(k < g0.len());
            assert(g0[k] == i as usize);
        }
    } else {
        if g0.contains(i as usize) {
            let k = choose|k: int| 0 <= k < g0.len() && g0[k] == i as usize;
            assert(g0[k] < n - 1);
        }
        let z = zombies[i];
        if !fired.contains(z.id) && (forall|j: int|
            0 <= j < i ==> (#[trigger] zombies[j]).id != z.id) {
            lemma_growled_ids(fired, zombies, bucket, i, z.id);
        }
        if wants_to_growl(z, bucket) && !growled(fired, zombies, bucket, i).contains(z.id) {
            assert(g[g0.len() as int] == i as usize);
        }
    }
}

proof fn lemma_growled_ids(fired: Set<u16>, zombies: Seq<Growler>, bucket: u32, n: int, id: u16)
    requires
        0 <= n <= zombies.len(),
        !fired.contains(id),
        forall|j: int| 0 <= j < n ==> (#[trigger] zombies[j]).id != id,
    ensures
        !growled(fired, zombies, bucket, n).contains(id),
    decreases n,
{
    if n > 0 {
        lemma_growled_ids(fired, zombies, bucket, n - 1, id);
        assert(zombies[n - 1].id != id);
    }
}

/// A bucket that goes on remembers who growled in it, and a new one nobody.
pub proof fn law_new_buckets_forget(memory: GrowlMemory, bucket: u32, id: u16)
    ensures
        memory.bucket == bucket ==> (memory.carried(bucket).contains(id)
            <==> memory.fired@.contains(id)),
        memory.bucket != bucket ==> !memory.carried(bucket).contains(id),
{
}

} // verus!
