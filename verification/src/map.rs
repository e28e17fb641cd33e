use vstd::prelude::*;

use crate::text::{decimal, push_decimal};

use crate::infrastructure::ServiceId;

verus! {

/// A tile coordinate on the city grid.
#[derive(Clone, Copy, Debug, PartialEq, Eq, Hash, Structural)]
pub struct GridPosition {
    pub x: u16,
    pub y: u16,
}

impl GridPosition {
    pub fn new(x: u16, y: u16) -> (p: Self)
        ensures
            p.x == x,
            p.y == y,
    {
        Self { x, y }
    }
}

/// The rectangle of tiles that a piece of infrastructure occupies.
#[derive(Clone, Copy, Debug, PartialEq, Eq, Structural)]
pub struct Footprint {
    width: u16,
    height: u16,
}

impl Footprint {
    pub closed spec fn spec_width(self) -> u16 {
        self.width
    }

    pub closed spec fn spec_height(self) -> u16 {
        self.height
    }

    /// The footprint with the given dimensions.
    pub closed spec fn spec_new(width: u16, height: u16) -> Footprint {
        Footprint { width, height }
    }

    pub broadcast proof fn lemma_spec_new(width: u16, height: u16)
        ensures
            #[trigger] Footprint::spec_new(width, height).spec_width() == width,
            Footprint::spec_new(width, height).spec_height() == height,
    {
    }

    pub fn new(width: u16, height: u16) -> (f: Self)
        ensures
            f == Footprint::spec_new(width, height),
            f.spec_width() == width,
            f.spec_height() == height,
    {
        Self { width, height }
    }

    pub fn width(self) -> (w: u16)
        ensures
            w == self.spec_width(),
    {
        self.width
    }

    pub fn height(self) -> (h: u16)
        ensures
            h == self.spec_height(),
    {
        self.height
    }
}

} // verus!

verus! {

/// The dimensions of the city grid; both are always non-zero.
#[derive(Clone, Copy, Debug, PartialEq, Eq, Structural)]
pub struct MapSize {
    width: u16,
    height: u16,
}

impl MapSize {
    #[verifier::type_invariant]
    closed spec fn non_empty(self) -> bool {
        self.width > 0 && self.height > 0
    }

    pub closed spec fn spec_width(self) -> u16 {
        self.width
    }

    pub closed spec fn spec_height(self) -> u16 {
        self.height
    }

    /// A map needs at least one column and one row.
    pub fn new(width: u16, height: u16) -> (res: Result<Self, MapSizeError>)
        ensures
            match res {
                Ok(size) => width > 0 && height > 0 && size.spec_width() == width
                    && size.spec_height() == height,
                Err(error) => (width == 0 || height == 0) && error == (MapSizeError {
                    width,
                    height,
                }),
            },
    {
        if width == 0 || height == 0 {
            return Err(MapSizeError { width, height });
        }
        Ok(Self { width, height })
    }

    pub fn width(self) -> (w: u16)
        ensures
            w == self.spec_width(),
            w > 0,
    {
        proof {
            use_type_invariant(&self);
        }
        self.width
    }

    pub fn height(self) -> (h: u16)
        ensures
            h == self.spec_height(),
            h > 0,
    {
        proof {
            use_type_invariant(&self);
        }
        self.height
    }
}

/// A rejected map size.
#[derive(Clone, Copy, Debug, PartialEq, Eq, Structural)]
pub struct MapSizeError {
    pub width: u16,
    pub height: u16,
}

/// Why a footprint cannot be placed at a position.
#[derive(Clone, Copy, Debug, PartialEq, Eq, Structural)]
pub enum PlacementError {
    OutOfBounds { position: GridPosition, footprint: Footprint, map_size: MapSize },
    Occupied { position: GridPosition, service_id: ServiceId },
}

/// Whether tile `tile` lies in the rectangle of `footprint` placed at `position`.
pub open spec fn in_footprint(position: GridPosition, footprint: Footprint, tile: GridPosition) -> bool {
    &&& position.x <= tile.x < position.x + footprint.spec_width()
    &&& position.y <= tile.y < position.y + footprint.spec_height()
}

/// Whether tile `a` comes before tile `b` when scanning row by row.
pub open spec fn scans_before(a: GridPosition, b: GridPosition) -> bool {
    a.y < b.y || (a.y == b.y && a.x < b.x)
}

/// `footprint` at `position` fits on the map and covers only free tiles.
pub open spec fn placement_is_free(map: GridMap, position: GridPosition, footprint: Footprint) -> bool {
    &&& fits(map.spec_size(), position, footprint)
    &&& forall|tile: GridPosition|
        in_footprint(position, footprint, tile) ==> #[trigger] map.spec_service_at(tile)
            == None::<ServiceId>
}

/// `error` is what placing `footprint` at `position` on `map` is refused with: the bounds
/// when it does not fit, otherwise the first occupied tile in row-major order.
pub open spec fn is_placement_error(
    map: GridMap,
    position: GridPosition,
    footprint: Footprint,
    error: PlacementError,
) -> bool {
    match error {
        PlacementError::OutOfBounds { position: p, footprint: f, map_size } => {
            &&& !fits(map.spec_size(), position, footprint)
            &&& p == position
            &&& f == footprint
            &&& map_size == map.spec_size()
        },
        PlacementError::Occupied { position: tile, service_id } => {
            &&& fits(map.spec_size(), position, footprint)
            &&& in_footprint(position, footprint, tile)
            &&& map.spec_service_at(tile) == Some(service_id)
            &&& forall|earlier: GridPosition|
                in_footprint(position, footprint, earlier) && scans_before(earlier, tile)
                    ==> #[trigger] map.spec_service_at(earlier) == None::<ServiceId>
        },
    }
}

/// `after` is `before` with every tile of `footprint` at `position` occupied by `id`.
pub open spec fn is_occupied_copy(
    before: GridMap,
    after: GridMap,
    position: GridPosition,
    footprint: Footprint,
    id: ServiceId,
) -> bool {
    &&& after.wf()
    &&& after.spec_size() == before.spec_size()
    &&& forall|tile: GridPosition| #[trigger]
        after.spec_service_at(tile) == if in_footprint(position, footprint, tile) {
            Some(id)
        } else {
            before.spec_service_at(tile)
        }
}

/// Whether `footprint` at `position` lies inside a map of `size`.
pub open spec fn fits(size: MapSize, position: GridPosition, footprint: Footprint) -> bool {
    &&& position.x + footprint.spec_width() <= size.spec_width()
    &&& position.y + footprint.spec_height() <= size.spec_height()
}

/// Occupancy of every tile of the city grid.
#[derive(Clone, Debug, PartialEq, Eq)]
pub struct GridMap {
    size: MapSize,
    occupied: Vec<Option<ServiceId>>,
}

impl GridMap {
    /// One occupancy entry per tile.
    pub closed spec fn wf(self) -> bool {
        self.occupied@.len() == self.size.spec_width() * self.size.spec_height()
    }

    pub closed spec fn spec_size(self) -> MapSize {
        self.size
    }

    /// The service occupying `tile`; positions off the map are empty.
    pub closed spec fn spec_service_at(self, tile: GridPosition) -> Option<ServiceId> {
        if tile.x < self.size.spec_width() && tile.y < self.size.spec_height() {
            self.occupied@[tile.y * self.size.spec_width() + tile.x]
        } else {
            None
        }
    }

    /// A map on which no tile is occupied.
    pub fn new(size: MapSize) -> (map: Self)
        ensures
            map.wf(),
            map.spec_size() == size,
            forall|tile: GridPosition| #[trigger] map.spec_service_at(tile) == None::<ServiceId>,
    {
        let width = size.width();
        let height = size.height();
        proof {
            assert(width * height <= 0xffff * 0xffff) by (nonlinear_arith)
                requires
                    width <= 0xffff,
                    height <= 0xffff,
            ;
        }
        let tile_count: usize = width as usize * height as usize;
        let mut occupied: Vec<Option<ServiceId>> = Vec::new();
        while occupied.len() < tile_count
            invariant
                occupied@.len() <= tile_count,
                forall|i: int| 0 <= i < occupied@.len() ==> occupied@[i] == None::<ServiceId>,
            decreases tile_count - occupied@.len(),
        {
            occupied.push(None);
        }
        let map = Self { size, occupied };
        assert forall|tile: GridPosition| #[trigger] map.spec_service_at(tile) == None::<ServiceId> by {
            if tile.x < size.spec_width() && tile.y < size.spec_height() {
                lemma_tile_index_in_range(tile.x, tile.y, size.spec_width(), size.spec_height());
            }
        }
        map
    }

    pub fn size(&self) -> (size: MapSize)
        ensures
            size == self.spec_size(),
    {
        self.size
    }

    pub fn service_at(&self, position: GridPosition) -> (id: Option<ServiceId>)
        requires
            self.wf(),
        ensures
            id == self.spec_service_at(position),
            position.x >= self.spec_size().spec_width() || position.y >= self.spec_size().spec_height()
                ==> id is None,
    {
        match self.index(position) {
            Some(index) => self.occupied[index],
            None => None,
        }
    }

    /// Accepts a placement exactly when it fits on the map and every covered tile is free;
    /// otherwise reports the bounds, or the first occupied tile in row-major order.
    pub fn validate_placement(&self, position: GridPosition, footprint: Footprint) -> (res: Result<
        (),
        PlacementError,
    >)
        requires
            self.wf(),
        ensures
            match res {
                Ok(()) => placement_is_free(*self, position, footprint),
                Err(error) => is_placement_error(*self, position, footprint, error),
            },
    {
        let end_x = match position.x.checked_add(footprint.width()) {
            Some(end) => end,
            None => return Err(self.out_of_bounds(position, footprint)),
        };
        let end_y = match position.y.checked_add(footprint.height()) {
            Some(end) => end,
            None => return Err(self.out_of_bounds(position, footprint)),
        };
        if end_x > self.size.width() || end_y > self.size.height() {
            return Err(self.out_of_bounds(position, footprint));
        }
        let mut y = position.y;
        while y < end_y
            invariant
                self.wf(),
                position.y <= y <= end_y,
                end_x == position.x + footprint.spec_width(),
                end_y == position.y + footprint.spec_height(),
                fits(self.spec_size(), position, footprint),
                forall|tile: GridPosition|
                    in_footprint(position, footprint, tile) && tile.y < y
                        ==> #[trigger] self.spec_service_at(tile) == None::<ServiceId>,
            decreases end_y - y,
        {
            let mut x = position.x;
            while x < end_x
                invariant
                    self.wf(),
                    position.y <= y < end_y,
                    position.x <= x <= end_x,
                    end_x == position.x + footprint.spec_width(),
                    end_y == position.y + footprint.spec_height(),
                    fits(self.spec_size(), position, footprint),
                    forall|tile: GridPosition|
                        in_footprint(position, footprint, tile) && (tile.y < y || (tile.y == y
                            && tile.x < x)) ==> #[trigger] self.spec_service_at(tile) == None::<
                            ServiceId,
                        >,
                decreases end_x - x,
            {
                let tile = GridPosition::new(x, y);
                if let Some(service_id) = self.service_at(tile) {
                    return Err(PlacementError::Occupied { position: tile, service_id });
                }
                x = x + 1;
            }
            y = y + 1;
        }
        Ok(())
    }

    /// Marks every tile of the footprint as occupied by `service_id`.
    pub fn occupy(&mut self, position: GridPosition, footprint: Footprint, service_id: ServiceId)
        requires
            old(self).wf(),
            fits(old(self).spec_size(), position, footprint),
        ensures
            is_occupied_copy(*old(self), *final(self), position, footprint, service_id),
    {
        let end_x = position.x + footprint.width();
        let end_y = position.y + footprint.height();
        let ghost old_map = *self;
        let mut y = position.y;
        while y < end_y
            invariant
                self.wf(),
                self.size == old_map.size,
                position.y <= y <= end_y,
                end_x == position.x + footprint.spec_width(),
                end_y == position.y + footprint.spec_height(),
                fits(self.spec_size(), position, footprint),
                forall|tile: GridPosition| #[trigger]
                    self.spec_service_at(tile) == if in_footprint(position, footprint, tile)
                        && tile.y < y {
                        Some(service_id)
                    } else {
                        old_map.spec_service_at(tile)
                    },
            decreases end_y - y,
        {
            let mut x = position.x;
            while x < end_x
                invariant
                    self.wf(),
                    self.size == old_map.size,
                    position.y <= y < end_y,
                    position.x <= x <= end_x,
                    end_x == position.x + footprint.spec_width(),
                    end_y == position.y + footprint.spec_height(),
                    fits(self.spec_size(), position, footprint),
                    forall|tile: GridPosition| #[trigger]
                        self.spec_service_at(tile) == if in_footprint(position, footprint, tile)
                            && (tile.y < y || (tile.y == y && tile.x < x)) {
                            Some(service_id)
                        } else {
                            old_map.spec_service_at(tile)
                        },
                decreases end_x - x,
            {
                let index = match self.index(GridPosition::new(x, y)) {
                    Some(index) => index,
                    None => {
                        proof {
                            assert(false);
                        }
                        return;
                    },
                };
                let ghost before = *self;
                self.occupied.set(index, Some(service_id));
                proof {
                    assert forall|tile: GridPosition| #[trigger]
                        self.spec_service_at(tile) == if in_footprint(position, footprint, tile)
                            && (tile.y < y || (tile.y == y && tile.x < x + 1)) {
                            Some(service_id)
                        } else {
                            old_map.spec_service_at(tile)
                        } by {
                        let w = self.size.spec_width();
                        let h = self.size.spec_height();
                        if tile.x < w && tile.y < h {
                            lemma_tile_index_in_range(tile.x, tile.y, w, h);
                            if tile.y * w + tile.x == y * w + x {
                                lemma_tile_index_injective(tile.x, tile.y, x, y, w);
                            }
                        }
                        assert(self.spec_service_at(tile) == if tile == (GridPosition { x, y }) {
                            Some(service_id)
                        } else {
                            before.spec_service_at(tile)
                        });
                    }
                }
                x = x + 1;
            }
            y = y + 1;
        }
    }

    /// The position of `position` in the row-major occupancy list, if it is on the map.
    fn index(&self, position: GridPosition) -> (index: Option<usize>)
        requires
            self.wf(),
        ensures
            match index {
                Some(i) => position.x < self.size.spec_width() && position.y
                    < self.size.spec_height() && i == position.y * self.size.spec_width()
                    + position.x && i < self.occupied@.len(),
                None => !(position.x < self.size.spec_width() && position.y
                    < self.size.spec_height()),
            },
    {
        if position.x >= self.size.width() || position.y >= self.size.height() {
            return None;
        }
        proof {
            lemma_tile_index_in_range(
                position.x,
                position.y,
                self.size.spec_width(),
                self.size.spec_height(),
            );
        }
        Some(position.y as usize * self.size.width() as usize + position.x as usize)
    }

    fn out_of_bounds(&self, position: GridPosition, footprint: Footprint) -> (error: PlacementError)
        ensures
            error == (PlacementError::OutOfBounds { position, footprint, map_size: self.spec_size() }),
    {
        PlacementError::OutOfBounds { position, footprint, map_size: self.size }
    }
}

proof fn lemma_tile_index_in_range(x: u16, y: u16, w: u16, h: u16)
    requires
        x < w,
        y < h,
    ensures
        0 <= y * w + x < w * h,
        y * w + x <= 0xffff_ffff,
{
    assert(y * w + x < w * h) by (nonlinear_arith)
        requires
            x < w,
            y < h,
    ;
    assert(w * h <= 0xffff * 0xffff) by (nonlinear_arith)
        requires
            w <= 0xffff,
            h <= 0xffff,
    ;
    assert(0 <= y * w) by (nonlinear_arith);
}

proof fn lemma_tile_index_injective(x1: u16, y1: u16, x2: u16, y2: u16, w: u16)
    requires
        x1 < w,
        x2 < w,
        y1 * w + x1 == y2 * w + x2,
    ensures
        x1 == x2,
        y1 == y2,
{
    if y1 < y2 {
        assert(y1 * w + w <= y2 * w) by (nonlinear_arith)
            requires
                y1 < y2,
        ;
    } else if y2 < y1 {
        assert(y2 * w + w <= y1 * w) by (nonlinear_arith)
            requires
                y2 < y1,
        ;
    }
}


impl MapSizeError {
    /// The error as a sentence.
    pub open spec fn spec_message(self) -> Seq<char> {
        "map dimensions must be non-zero, got "@ + decimal(self.width as nat) + "x"@ + decimal(
            self.height as nat,
        )
    }

    pub fn to_string(&self) -> (text: String)
        ensures
            text@ == self.spec_message(),
    {
        let mut text = String::new();
        text.append("map dimensions must be non-zero, got ");
        push_decimal(&mut text, self.width as u128);
        text.append("x");
        push_decimal(&mut text, self.height as u128);
        assert(text@ =~= self.spec_message());
        text
    }
}

impl PlacementError {
    /// The error as a sentence.
    pub open spec fn spec_message(self) -> Seq<char> {
        match self {
            PlacementError::OutOfBounds { position, footprint, map_size } => decimal(
                footprint.spec_width() as nat,
            ) + "x"@ + decimal(footprint.spec_height() as nat) + " service at ("@ + decimal(
                position.x as nat,
            ) + ", "@ + decimal(position.y as nat) + ") does not fit on "@ + decimal(
                map_size.spec_width() as nat,
            ) + "x"@ + decimal(map_size.spec_height() as nat) + " map"@,
            PlacementError::Occupied { position, service_id } => "tile ("@ + decimal(
                position.x as nat,
            ) + ", "@ + decimal(position.y as nat) + ") is occupied by service "@ + decimal(
                service_id.spec_value() as nat,
            ),
        }
    }

    pub fn to_string(&self) -> (text: String)
        ensures
            text@ == self.spec_message(),
    {
        let mut text = String::new();
        match *self {
            PlacementError::OutOfBounds { position, footprint, map_size } => {
                push_decimal(&mut text, footprint.width() as u128);
                text.append("x");
                push_decimal(&mut text, footprint.height() as u128);
                text.append(" service at (");
                push_decimal(&mut text, position.x as u128);
                text.append(", ");
                push_decimal(&mut text, position.y as u128);
                text.append(") does not fit on ");
                push_decimal(&mut text, map_size.width() as u128);
                text.append("x");
                push_decimal(&mut text, map_size.height() as u128);
                text.append(" map");
            },
            PlacementError::Occupied { position, service_id } => {
                text.append("tile (");
                push_decimal(&mut text, position.x as u128);
                text.append(", ");
                push_decimal(&mut text, position.y as u128);
                text.append(") is occupied by service ");
                push_decimal(&mut text, service_id.value() as u128);
            },
        }
        assert(text@ =~= self.spec_message());
        text
    }
}


/// Two maps with the same size and the same occupant on every tile.
pub open spec fn same_occupancy(a: GridMap, b: GridMap) -> bool {
    &&& a.spec_size() == b.spec_size()
    &&& forall|tile: GridPosition| #[trigger] a.spec_service_at(tile) == b.spec_service_at(tile)
}

/// Maps with the same occupancy reject a placement with the same error.
pub proof fn lemma_placement_error_unique(
    a: GridMap,
    b: GridMap,
    position: GridPosition,
    footprint: Footprint,
    error_a: PlacementError,
    error_b: PlacementError,
)
    requires
        same_occupancy(a, b),
        is_placement_error(a, position, footprint, error_a),
        is_placement_error(b, position, footprint, error_b),
    ensures
        error_a == error_b,
{
    match (error_a, error_b) {
        (
            PlacementError::Occupied { position: tile_a, service_id: id_a },
            PlacementError::Occupied { position: tile_b, service_id: id_b },
        ) => {
            if tile_a != tile_b {
                if scans_before(tile_a, tile_b) {
                    assert(b.spec_service_at(tile_a) == None::<ServiceId>);
                    assert(a.spec_service_at(tile_a) == b.spec_service_at(tile_a));
                } else {
                    assert(scans_before(tile_b, tile_a));
                    assert(a.spec_service_at(tile_b) == None::<ServiceId>);
                    assert(a.spec_service_at(tile_b) == b.spec_service_at(tile_b));
                }
            }
            assert(a.spec_service_at(tile_a) == b.spec_service_at(tile_a));
        },
        _ => {},
    }
}


/// Maps with the same occupancy accept the same placements.
pub proof fn lemma_same_occupancy_free(
    a: GridMap,
    b: GridMap,
    position: GridPosition,
    footprint: Footprint,
)
    requires
        same_occupancy(a, b),
    ensures
        placement_is_free(a, position, footprint) == placement_is_free(b, position, footprint),
{
    if placement_is_free(a, position, footprint) {
        assert forall|tile: GridPosition| in_footprint(position, footprint, tile) implies #[trigger]
            b.spec_service_at(tile) == None::<ServiceId> by {
            assert(a.spec_service_at(tile) == b.spec_service_at(tile));
        }
    }
    if placement_is_free(b, position, footprint) {
        assert forall|tile: GridPosition| in_footprint(position, footprint, tile) implies #[trigger]
            a.spec_service_at(tile) == None::<ServiceId> by {
            assert(a.spec_service_at(tile) == b.spec_service_at(tile));
        }
    }
}

} // verus!
