use crate::chunk_set::ChunkSet;
use crate::math::IVec3;
use std::marker::PhantomData;
use vstd::prelude::*;

verus! {

/// The chunk that an observer is in.
#[derive(Clone, Copy, Debug, PartialEq, Eq, Structural)]
pub struct ChunkPos(pub IVec3);

/// Marks the channel of chunks whose meshes are wanted.
#[derive(Default)]
pub struct MeshScanner;

/// Marks the channel of chunks whose voxel data is wanted.
#[derive(Default)]
pub struct DataScanner;

/// Largest distance from the origin, along each axis, of the chunk of an
/// observer: the chunk of every world position lies within it, and the
/// chunks around such a chunk have coordinates that fit 32 bits.
pub const OBSERVER_LIMIT: i32 = 0x0400_0001;

/// Whether `pos` can be the chunk of an observer.
pub open spec fn observable(pos: IVec3) -> bool {
    &&& -OBSERVER_LIMIT <= pos.x <= OBSERVER_LIMIT
    &&& -OBSERVER_LIMIT <= pos.y <= OBSERVER_LIMIT
    &&& -OBSERVER_LIMIT <= pos.z <= OBSERVER_LIMIT
}

/// Whether chunk `c` lies in the box around `center` that reaches
/// `horizontal_radius + 1` chunks down and `horizontal_radius` chunks up
/// along x and z, and likewise with `vertical_radius` along y.
pub open spec fn in_box(
    c: IVec3,
    center: IVec3,
    horizontal_radius: int,
    vertical_radius: int,
) -> bool {
    &&& center.x - horizontal_radius - 1 <= c.x < center.x + horizontal_radius + 1
    &&& center.y - vertical_radius - 1 <= c.y < center.y + vertical_radius + 1
    &&& center.z - horizontal_radius - 1 <= c.z < center.z + horizontal_radius + 1
}

/// The chunks in the box around `center`.
pub open spec fn spec_chunks_around(
    center: IVec3,
    horizontal_radius: int,
    vertical_radius: int,
) -> Set<IVec3> {
    Set::new(|c: IVec3| in_box(c, center, horizontal_radius, vertical_radius))
}

/// An observer's wish for chunks on one channel `T`, within a box around
/// the chunk it is in.
pub struct Scanner<T> {
    horizontal_radius: u8,
    vertical_radius: u8,
    phantom_data: PhantomData<T>,
}

impl<T> Scanner<T> {
    /// The radius along x and z.
    pub closed spec fn spec_horizontal_radius(&self) -> u8 {
        self.horizontal_radius
    }

    /// The radius along y.
    pub closed spec fn spec_vertical_radius(&self) -> u8 {
        self.vertical_radius
    }

    /// The chunks that the scanner wants when its observer is in chunk `pos`.
    pub open spec fn desired(&self, pos: IVec3) -> Set<IVec3> {
        spec_chunks_around(
            pos,
            self.spec_horizontal_radius() as int,
            self.spec_vertical_radius() as int,
        )
    }

    /// A scanner with the given radii; the vertical radius defaults to the
    /// horizontal one.
    pub fn new(horizontal_radius: u8, vertical_radius: Option<u8>) -> (scanner: Self)
        ensures
            scanner.spec_horizontal_radius() == horizontal_radius,
            scanner.spec_vertical_radius() == match vertical_radius {
                Some(v) => v,
                None => horizontal_radius,
            },
    {
        Scanner {
            horizontal_radius,
            vertical_radius: match vertical_radius {
                Some(v) => v,
                None => horizontal_radius,
            },
            phantom_data: PhantomData,
        }
    }

    /// The radius along x and z.
    pub fn horizontal_radius(&self) -> (r: u8)
        ensures
            r == self.spec_horizontal_radius(),
    {
        self.horizontal_radius
    }

    /// The radius along y.
    pub fn vertical_radius(&self) -> (r: u8)
        ensures
            r == self.spec_vertical_radius(),
    {
        self.vertical_radius
    }
}

/// The chunks that any scanner of channel `T` wants.
pub struct GlobalScannerDesiredChunks<T> {
    pub chunks: ChunkSet,
    pub phantom_data: PhantomData<T>,
}

impl<T> GlobalScannerDesiredChunks<T> {
    /// No chunk is wanted.
    pub fn new() -> (global: Self)
        ensures
            global.chunks@ == Set::<IVec3>::empty(),
    {
        GlobalScannerDesiredChunks { chunks: ChunkSet::new(), phantom_data: PhantomData }
    }
}

/// Tells that `chunk` is now wanted on channel `T`.
pub struct ChunkGainedScannerRelevance<T> {
    pub chunk: IVec3,
    pub phantom_data: PhantomData<T>,
}

impl<T> ChunkGainedScannerRelevance<T> {
    /// The event that tells that `chunk` is now wanted.
    pub fn new(chunk: IVec3) -> (event: Self)
        ensures
            event.chunk == chunk,
    {
        ChunkGainedScannerRelevance { chunk, phantom_data: PhantomData }
    }
}

/// Tells that `chunk` is no longer wanted on channel `T`.
pub struct ChunkLostScannerRelevance<T> {
    pub chunk: IVec3,
    pub phantom_data: PhantomData<T>,
}

impl<T> ChunkLostScannerRelevance<T> {
    /// The event that tells that `chunk` is no longer wanted.
    pub fn new(chunk: IVec3) -> (event: Self)
        ensures
            event.chunk == chunk,
    {
        ChunkLostScannerRelevance { chunk, phantom_data: PhantomData }
    }
}

/// The `i`-th chunk of the box around `center`, counting along z first,
/// then y, then x, each from its lowest coordinate up.
pub open spec fn box_point(
    center: IVec3,
    horizontal_radius: int,
    vertical_radius: int,
    i: int,
) -> IVec3 {
    let ny = 2 * (vertical_radius + 1);
    let nz = 2 * (horizontal_radius + 1);
    IVec3 {
        x: (center.x - horizontal_radius - 1 + (i / nz) / ny) as i32,
        y: (center.y - vertical_radius - 1 + (i / nz) % ny) as i32,
        z: (center.z - horizontal_radius - 1 + i % nz) as i32,
    }
}

/// The number of chunks in a box with the given radii.
pub open spec fn box_volume(horizontal_radius: int, vertical_radius: int) -> int {
    (2 * (horizontal_radius + 1)) * (2 * (vertical_radius + 1)) * (2 * (horizontal_radius + 1))
}

/// The chunks of the box around `center`, in the order of [`box_point`].
pub open spec fn spec_iter_chunks_around(
    center: IVec3,
    horizontal_radius: int,
    vertical_radius: int,
) -> Seq<IVec3> {
    Seq::new(
        box_volume(horizontal_radius, vertical_radius) as nat,
        |i: int| box_point(center, horizontal_radius, vertical_radius, i),
    )
}

/// A position counted along z first, then y, then x has those three
/// numbers as its remainders and quotient.
proof fn lemma_box_compose(xi: int, yi: int, zi: int, ny: int, nz: int)
    requires
        0 <= xi,
        0 <= yi < ny,
        0 <= zi < nz,
    ensures
        ({
            let i = (xi * ny + yi) * nz + zi;
            &&& 0 <= i
            &&& i % nz == zi
            &&& (i / nz) % ny == yi
            &&& (i / nz) / ny == xi
        }),
{
    let row = xi * ny + yi;
    let i = row * nz + zi;
    assert(0 <= xi * ny) by (nonlinear_arith)
        requires
            0 <= xi,
            0 < ny,
    ;
    assert(0 <= row * nz) by (nonlinear_arith)
        requires
            0 <= row,
            0 < nz,
    ;
    vstd::arithmetic::div_mod::lemma_fundamental_div_mod_converse(i, nz, row, zi);
    vstd::arithmetic::div_mod::lemma_fundamental_div_mod_converse(row, ny, xi, yi);
}

/// Every count splits into its position along z, y and x.
proof fn lemma_box_decompose(i: int, nx: int, ny: int, nz: int)
    requires
        0 <= i < nx * ny * nz,
        0 < nx,
        0 < ny,
        0 < nz,
    ensures
        0 <= i % nz < nz,
        0 <= (i / nz) % ny < ny,
        0 <= (i / nz) / ny < nx,
        i == (((i / nz) / ny) * ny + (i / nz) % ny) * nz + i % nz,
{
    let row = i / nz;
    vstd::arithmetic::div_mod::lemma_fundamental_div_mod(i, nz);
    vstd::arithmetic::div_mod::lemma_mod_bound(i, nz);
    vstd::arithmetic::div_mod::lemma_div_pos_is_pos(i, nz);
    vstd::arithmetic::div_mod::lemma_fundamental_div_mod(row, ny);
    vstd::arithmetic::div_mod::lemma_mod_bound(row, ny);
    vstd::arithmetic::div_mod::lemma_div_pos_is_pos(row, ny);
    assert(nx * ny * nz == nz * (nx * ny)) by (nonlinear_arith);
    vstd::arithmetic::div_mod::lemma_multiply_divide_lt(i, nz, nx * ny);
    assert(nx * ny == ny * nx) by (nonlinear_arith);
    vstd::arithmetic::div_mod::lemma_multiply_divide_lt(row, ny, nx);
    assert(nz * row == row * nz) by (nonlinear_arith);
    assert(ny * (row / ny) == (row / ny) * ny) by (nonlinear_arith);
}

/// The list of the chunks of a box names each chunk of the box, once.
#[verifier::rlimit(50)]
pub proof fn lemma_chunks_around(center: IVec3, horizontal_radius: int, vertical_radius: int)
    requires
        observable(center),
        0 <= horizontal_radius <= 255,
        0 <= vertical_radius <= 255,
    ensures
        spec_iter_chunks_around(center, horizontal_radius, vertical_radius).no_duplicates(),
        spec_iter_chunks_around(center, horizontal_radius, vertical_radius).to_set()
            == spec_chunks_around(center, horizontal_radius, vertical_radius),
{
    let listed = spec_iter_chunks_around(center, horizontal_radius, vertical_radius);
    let nx = 2 * (horizontal_radius + 1);
    let ny = 2 * (vertical_radius + 1);
    let nz = nx;
    assert(0 < nx * ny * nz) by (nonlinear_arith)
        requires
            0 < nx,
            0 < ny,
            0 < nz,
    ;
    assert forall|i: int, j: int|
        0 <= i < listed.len() && 0 <= j < listed.len() && listed[i] == listed[j] implies i
        == j by {
        lemma_box_decompose(i, nx, ny, nz);
        lemma_box_decompose(j, nx, ny, nz);
    }
    assert forall|c: IVec3|
        listed.to_set().contains(c) == spec_chunks_around(
            center,
            horizontal_radius,
            vertical_radius,
        ).contains(c) by {
        if listed.to_set().contains(c) {
            let i = choose|i: int| 0 <= i < listed.len() && listed[i] == c;
            lemma_box_decompose(i, nx, ny, nz);
        }
        if in_box(c, center, horizontal_radius, vertical_radius) {
            let xi = c.x - (center.x - horizontal_radius - 1);
            let yi = c.y - (center.y - vertical_radius - 1);
            let zi = c.z - (center.z - horizontal_radius - 1);
            let i = (xi * ny + yi) * nz + zi;
            lemma_box_compose(xi, yi, zi, ny, nz);
            assert(i < nx * ny * nz) by (nonlinear_arith)
                requires
                    i == (xi * ny + yi) * nz + zi,
                    0 <= xi < nx,
                    0 <= yi < ny,
                    0 <= zi < nz,
            ;
            assert(listed[i] == c);
        }
    }
    assert(listed.to_set() =~= spec_chunks_around(center, horizontal_radius, vertical_radius));
}

/// The chunks in the box around `center`: along each axis from `radius + 1`
/// chunks below the centre up to `radius` chunks above it.
#[verifier::rlimit(50)]
pub fn iter_chunks_around(center: IVec3, horizontal_radius: u8, vertical_radius: u8) -> (chunks:
    Vec<IVec3>)
    requires
        observable(center),
    ensures
        chunks@ == spec_iter_chunks_around(
            center,
            horizontal_radius as int,
            vertical_radius as int,
        ),
        chunks@.no_duplicates(),
        chunks@.to_set() == spec_chunks_around(
            center,
            horizontal_radius as int,
            vertical_radius as int,
        ),
{
    let r: i32 = horizontal_radius as i32 + 1;
    let v_r: i32 = vertical_radius as i32 + 1;
    let ghost hr = horizontal_radius as int;
    let ghost vr = vertical_radius as int;
    let ghost ny = 2 * (vr + 1);
    let ghost nz = 2 * (hr + 1);
    let mut chunks: Vec<IVec3> = Vec::new();
    let mut x: i32 = -r;
    assert(((x + r) * ny + 0) * nz + 0 == 0) by (nonlinear_arith)
        requires
            x + r == 0,
    ;
    while x < r
        invariant
            observable(center),
            r == hr + 1,
            v_r == vr + 1,
            0 <= hr <= 255,
            0 <= vr <= 255,
            ny == 2 * (vr + 1),
            nz == 2 * (hr + 1),
            -r <= x <= r,
            chunks@.len() == ((x + r) * ny + 0) * nz + 0,
            forall|j: int| 0 <= j < chunks@.len() ==> chunks@[j] == box_point(center, hr, vr, j),
        decreases r - x,
    {
        let mut y: i32 = -v_r;
        while y < v_r
            invariant
                observable(center),
                r == hr + 1,
                v_r == vr + 1,
                0 <= hr <= 255,
                0 <= vr <= 255,
                ny == 2 * (vr + 1),
                nz == 2 * (hr + 1),
                -r <= x < r,
                -v_r <= y <= v_r,
                chunks@.len() == ((x + r) * ny + (y + v_r)) * nz + 0,
                forall|j: int|
                    0 <= j < chunks@.len() ==> chunks@[j] == box_point(center, hr, vr, j),
            decreases v_r - y,
        {
            let mut z: i32 = -r;
            while z < r
                invariant
                    observable(center),
                    r == hr + 1,
                    v_r == vr + 1,
                    0 <= hr <= 255,
                    0 <= vr <= 255,
                    ny == 2 * (vr + 1),
                    nz == 2 * (hr + 1),
                    -r <= x < r,
                    -v_r <= y < v_r,
                    -r <= z <= r,
                    chunks@.len() == ((x + r) * ny + (y + v_r)) * nz + (z + r),
                    forall|j: int|
                        0 <= j < chunks@.len() ==> chunks@[j] == box_point(center, hr, vr, j),
                decreases r - z,
            {
                proof {
                    lemma_box_compose((x + r) as int, (y + v_r) as int, (z + r) as int, ny, nz);
                }
                chunks.push(IVec3::new(center.x + x, center.y + y, center.z + z));
                z += 1;
            }
            y += 1;
            assert(((x + r) * ny + (y - 1 + v_r)) * nz + (r + r) == ((x + r) * ny + (y + v_r)) * nz)
                by (nonlinear_arith)
                requires
                    nz == r + r,
            ;
        }
        x += 1;
        assert(((x - 1 + r) * ny + (v_r + v_r)) * nz == ((x + r) * ny + 0) * nz) by (nonlinear_arith)
            requires
                ny == v_r + v_r,
        ;
    }
    proof {
        assert((r + r) * ny * nz == box_volume(hr, vr)) by (nonlinear_arith)
            requires
                r == hr + 1,
                ny == 2 * (vr + 1),
                nz == 2 * (hr + 1),
        ;
        assert(((r + r) * ny + 0) * nz + 0 == (r + r) * ny * nz) by (nonlinear_arith);
        assert(chunks@ =~= spec_iter_chunks_around(center, hr, vr));
        lemma_chunks_around(center, hr, vr);
    }
    chunks
}

/// The chunks that at least one of `scanners` wants, each scanner taken
/// with the chunk its observer is in.
pub open spec fn spec_desired<T>(scanners: Seq<(Scanner<T>, ChunkPos)>) -> Set<IVec3> {
    Set::new(
        |c: IVec3|
            exists|i: int|
                0 <= i < scanners.len() && (#[trigger] scanners[i]).0.desired(
                    scanners[i].1.0,
                ).contains(c),
    )
}

/// The chunks that a list of gain events names, in order.
pub open spec fn gained_chunks<T>(events: Seq<ChunkGainedScannerRelevance<T>>) -> Seq<IVec3> {
    events.map_values(|e: ChunkGainedScannerRelevance<T>| e.chunk)
}

/// The chunks that a list of loss events names, in order.
pub open spec fn lost_chunks<T>(events: Seq<ChunkLostScannerRelevance<T>>) -> Seq<IVec3> {
    events.map_values(|e: ChunkLostScannerRelevance<T>| e.chunk)
}

/// The chunks that a list of gain events names, in order.
pub fn chunks_gained<T>(events: &Vec<ChunkGainedScannerRelevance<T>>) -> (chunks: Vec<IVec3>)
    ensures
        chunks@ == gained_chunks(events@),
{
    let mut chunks: Vec<IVec3> = Vec::new();
    let mut i: usize = 0;
    while i < events.len()
        invariant
            i <= events@.len(),
            chunks@.len() == i,
            forall|j: int| 0 <= j < i ==> chunks@[j] == events@[j].chunk,
        decreases events@.len() - i,
    {
        chunks.push(events[i].chunk);
        i += 1;
    }
    assert(chunks@ =~= gained_chunks(events@));
    chunks
}

/// The chunks that a list of loss events names, in order.
pub fn chunks_lost<T>(events: &Vec<ChunkLostScannerRelevance<T>>) -> (chunks: Vec<IVec3>)
    ensures
        chunks@ == lost_chunks(events@),
{
    let mut chunks: Vec<IVec3> = Vec::new();
    let mut i: usize = 0;
    while i < events.len()
        invariant
            i <= events@.len(),
            chunks@.len() == i,
            forall|j: int| 0 <= j < i ==> chunks@[j] == events@[j].chunk,
        decreases events@.len() - i,
    {
        chunks.push(events[i].chunk);
        i += 1;
    }
    assert(chunks@ =~= lost_chunks(events@));
    chunks
}

/// What one pass of the scanner tells.
pub struct ScanEvents<T> {
    /// One event for each chunk that became wanted.
    pub gained: Vec<ChunkGainedScannerRelevance<T>>,
    /// One event for each chunk that is no longer wanted.
    pub lost: Vec<ChunkLostScannerRelevance<T>>,
}

/// Brings the set of wanted chunks of channel `T` up to date with the
/// scanners and tells which chunks entered it and which left it.
///
/// The pass does nothing unless a scanner's observer changed chunk
/// (`any_changed`) or a scanner was removed (`any_removed`).
#[verifier::rlimit(50)]
pub fn scan<T>(
    any_changed: bool,
    any_removed: bool,
    scanners: &Vec<(Scanner<T>, ChunkPos)>,
    global_desired_chunks: &mut GlobalScannerDesiredChunks<T>,
) -> (events: ScanEvents<T>)
    requires
        forall|i: int| 0 <= i < scanners@.len() ==> observable((#[trigger] scanners@[i]).1.0),
    ensures
        !any_changed && !any_removed ==> {
            &&& final(global_desired_chunks).chunks@ == old(global_desired_chunks).chunks@
            &&& events.gained@.len() == 0
            &&& events.lost@.len() == 0
        },
        any_changed || any_removed ==> {
            &&& final(global_desired_chunks).chunks@ == spec_desired(scanners@)
            &&& gained_chunks(events.gained@).no_duplicates()
            &&& gained_chunks(events.gained@).to_set() == spec_desired(scanners@).difference(
                old(global_desired_chunks).chunks@,
            )
            &&& lost_chunks(events.lost@).no_duplicates()
            &&& lost_chunks(events.lost@).to_set() == old(
                global_desired_chunks,
            ).chunks@.difference(spec_desired(scanners@))
        },
{
    if !any_changed && !any_removed {
        return ScanEvents { gained: Vec::new(), lost: Vec::new() };
    }
    let mut current = ChunkSet::new();
    let mut i: usize = 0;
    while i < scanners.len()
        invariant
            i <= scanners@.len(),
            forall|k: int| 0 <= k < scanners@.len() ==> observable((#[trigger] scanners@[k]).1.0),
            current@ == spec_desired(scanners@.take(i as int)),
        decreases scanners@.len() - i,
    {
        let around = iter_chunks_around(
            scanners[i].1.0,
            scanners[i].0.horizontal_radius(),
            scanners[i].0.vertical_radius(),
        );
        current.extend(&around);
        proof {
            let before = scanners@.take(i as int);
            let after = scanners@.take(i as int + 1);
            assert forall|c: IVec3|
                current@.contains(c) == spec_desired(after).contains(c) by {
                if spec_desired(before).contains(c) {
                    let k = choose|k: int|
                        0 <= k < before.len() && (#[trigger] before[k]).0.desired(
                            before[k].1.0,
                        ).contains(c);
                    assert(after[k] == before[k]);
                }
                if around@.to_set().contains(c) {
                    assert(after[i as int] == scanners@[i as int]);
                }
                if spec_desired(after).contains(c) {
                    let k = choose|k: int|
                        0 <= k < after.len() && (#[trigger] after[k]).0.desired(
                            after[k].1.0,
                        ).contains(c);
                    if k < i {
                        assert(before[k] == after[k]);
                    }
                }
            }
            assert(current@ =~= spec_desired(after));
        }
        i += 1;
    }
    assert(scanners@.take(scanners@.len() as int) =~= scanners@);
    let newly_desired = current.difference(&global_desired_chunks.chunks);
    let no_longer_desired = global_desired_chunks.chunks.difference(&current);
    let mut gained: Vec<ChunkGainedScannerRelevance<T>> = Vec::new();
    let mut g: usize = 0;
    while g < newly_desired.len()
        invariant
            g <= newly_desired@.len(),
            gained@.len() == g,
            gained_chunks(gained@) == newly_desired@.take(g as int),
        decreases newly_desired@.len() - g,
    {
        let ghost before = gained@;
        gained.push(ChunkGainedScannerRelevance::new(newly_desired[g]));
        assert forall|j: int| 0 <= j < g + 1 implies gained_chunks(gained@)[j]
            == newly_desired@[j] by {
            if j < g {
                assert(gained@[j] == before[j]);
                assert(gained_chunks(before)[j] == newly_desired@.take(g as int)[j]);
            }
        }
        assert(gained_chunks(gained@) =~= newly_desired@.take(g as int + 1));
        g += 1;
    }
    assert(newly_desired@.take(newly_desired@.len() as int) =~= newly_desired@);
    let mut lost: Vec<ChunkLostScannerRelevance<T>> = Vec::new();
    let mut l: usize = 0;
    while l < no_longer_desired.len()
        invariant
            l <= no_longer_desired@.len(),
            lost@.len() == l,
            lost_chunks(lost@) == no_longer_desired@.take(l as int),
        decreases no_longer_desired@.len() - l,
    {
        let ghost before = lost@;
        lost.push(ChunkLostScannerRelevance::new(no_longer_desired[l]));
        assert forall|j: int| 0 <= j < l + 1 implies lost_chunks(lost@)[j]
            == no_longer_desired@[j] by {
            if j < l {
                assert(lost@[j] == before[j]);
                assert(lost_chunks(before)[j] == no_longer_desired@.take(l as int)[j]);
            }
        }
        assert(lost_chunks(lost@) =~= no_longer_desired@.take(l as int + 1));
        l += 1;
    }
    assert(no_longer_desired@.take(no_longer_desired@.len() as int) =~= no_longer_desired@);
    global_desired_chunks.chunks = current;
    ScanEvents { gained, lost }
}

/// The set of wanted chunks after the first `n` passes of a script, where
/// `script[k]` is what the scanners want at pass `k` and nothing is wanted
/// at the start.
pub open spec fn global_after(script: Seq<Set<IVec3>>, n: int) -> Set<IVec3> {
    if n <= 0 {
        Set::empty()
    } else {
        script[n - 1]
    }
}

/// How many gain events the first `n` passes of a script tell of chunk `c`.
pub open spec fn gained_count(script: Seq<Set<IVec3>>, c: IVec3, n: int) -> int
    decreases n,
{
    if n <= 0 {
        0
    } else {
        gained_count(script, c, n - 1) + if script[n - 1].difference(
            global_after(script, n - 1),
        ).contains(c) {
            1int
        } else {
            0int
        }
    }
}

/// How many loss events the first `n` passes of a script tell of chunk `c`.
pub open spec fn lost_count(script: Seq<Set<IVec3>>, c: IVec3, n: int) -> int
    decreases n,
{
    if n <= 0 {
        0
    } else {
        lost_count(script, c, n - 1) + if global_after(script, n - 1).difference(
            script[n - 1],
        ).contains(c) {
            1int
        } else {
            0int
        }
    }
}

/// Over any script of passes, a chunk that ends up wanted has been told
/// gained once more often than lost, and one that ends up unwanted as often
/// gained as lost.
pub proof fn lemma_exactly_once(script: Seq<Set<IVec3>>, c: IVec3, n: int)
    requires
        0 <= n <= script.len(),
    ensures
        gained_count(script, c, n) - lost_count(script, c, n) == if global_after(
            script,
            n,
        ).contains(c) {
            1int
        } else {
            0int
        },
    decreases n,
{
    if n > 0 {
        lemma_exactly_once(script, c, n - 1);
    }
}

/// A pass that finds the scanners wanting what is already wanted tells
/// nothing.
pub proof fn lemma_steady_state(global: Set<IVec3>)
    ensures
        global.difference(global) == Set::<IVec3>::empty(),
{
    assert(global.difference(global) =~= Set::<IVec3>::empty());
}

} // verus!
