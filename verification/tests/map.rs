use servus::{Footprint, GridMap, GridPosition, MapSize, MapSizeError, PlacementError, ServiceId};

fn map_size(width: u16, height: u16) -> MapSize {
    MapSize::new(width, height).expect("test maps have valid dimensions")
}

#[test]
fn map_dimensions_must_be_non_zero() {
    assert_eq!(
        MapSize::new(0, 4),
        Err(MapSizeError {
            width: 0,
            height: 4,
        })
    );
    assert_eq!(
        MapSize::new(4, 0),
        Err(MapSizeError {
            width: 4,
            height: 0,
        })
    );
}

#[test]
fn map_size_errors_have_a_readable_message() {
    let error = MapSizeError {
        width: 0,
        height: 5,
    };
    assert_eq!(
        error.to_string(),
        "map dimensions must be non-zero, got 0x5"
    );
}

#[test]
fn valid_empty_tile_accepts_a_footprint() {
    let map = GridMap::new(map_size(4, 3));
    assert_eq!(map.size().width(), 4);
    assert_eq!(map.size().height(), 3);
    assert_eq!(
        map.validate_placement(GridPosition::new(2, 1), Footprint::new(2, 2)),
        Ok(())
    );
}

#[test]
fn footprints_must_fit_inside_the_map() {
    let map = GridMap::new(map_size(4, 3));
    let position = GridPosition::new(3, 2);
    let footprint = Footprint::new(2, 1);
    assert_eq!(
        map.validate_placement(position, footprint),
        Err(PlacementError::OutOfBounds {
            position,
            footprint,
            map_size: map_size(4, 3),
        })
    );
}

#[test]
fn positions_outside_the_map_are_empty_but_invalid_for_placement() {
    let map = GridMap::new(map_size(2, 2));
    let position = GridPosition::new(2, 0);
    assert_eq!(map.service_at(position), None);
    assert!(
        matches!(
            map.validate_placement(position, Footprint::new(1, 1)),
            Err(PlacementError::OutOfBounds { .. })
        ),
        "an out-of-bounds position must not be buildable"
    );
}

#[test]
fn overflowing_footprint_coordinates_are_out_of_bounds() {
    let map = GridMap::new(map_size(2, 2));
    assert!(matches!(
        map.validate_placement(GridPosition::new(u16::MAX, 0), Footprint::new(1, 1)),
        Err(PlacementError::OutOfBounds { .. })
    ));
}

#[test]
fn occupied_tiles_report_the_existing_service() {
    let mut map = GridMap::new(map_size(3, 3));
    let service_id = ServiceId::new(9);
    map.occupy(GridPosition::new(1, 1), Footprint::new(2, 1), service_id);
    assert_eq!(map.service_at(GridPosition::new(2, 1)), Some(service_id));
    assert_eq!(
        map.validate_placement(GridPosition::new(2, 1), Footprint::new(1, 1)),
        Err(PlacementError::Occupied {
            position: GridPosition::new(2, 1),
            service_id,
        })
    );
}

#[test]
fn placement_errors_have_readable_messages() {
    let error = PlacementError::Occupied {
        position: GridPosition::new(3, 7),
        service_id: ServiceId::new(4),
    };
    assert_eq!(error.to_string(), "tile (3, 7) is occupied by service 4");

    let error = PlacementError::OutOfBounds {
        position: GridPosition::new(3, 2),
        footprint: Footprint::new(2, 1),
        map_size: map_size(4, 3),
    };
    assert_eq!(
        error.to_string(),
        "2x1 service at (3, 2) does not fit on 4x3 map"
    );
}
