use space_trader::galaxy::{Galaxy, DISTANCE_LIMIT};
use space_trader::sector::{get_sector, MAX_SECTOR_LINKS};

fn check_structure(galaxy: &Galaxy, sector_count: usize) {
    assert_eq!(galaxy.num_sectors(), sector_count);
    for s in 1..=sector_count {
        let sector = get_sector(galaxy, s).unwrap();
        assert_eq!(sector.sector_id, s);
        // No self-loops, targets in range, no duplicate links.
        for (i, t) in sector.sector_links.iter().enumerate() {
            assert_ne!(*t, s);
            assert!(1 <= *t && *t <= sector_count);
            for u in sector.sector_links.iter().skip(i + 1) {
                assert_ne!(*t, *u);
            }
        }
    }
}

#[test]
fn ten_sector_galaxy_is_connected_and_bounded() {
    let (galaxy, capped_ok) = Galaxy::new_conventional_galaxy(1, "Kronos".to_string(), 10);
    check_structure(&galaxy, 10);
    for s in 2..=10 {
        // Every sector reaches the root within the distance limit, and the
        // root reaches every sector.
        let homeward = galaxy.find_shortest_path(s, 1);
        assert!(!homeward.is_empty());
        assert!(homeward.len() <= DISTANCE_LIMIT);
        assert!(!galaxy.find_shortest_path(1, s).is_empty());
    }
    // Ten sectors yield no ports at one port per fifteen sectors.
    assert_eq!(galaxy.num_ports(), 0);
    if capped_ok {
        for s in 1..=10 {
            let sector = get_sector(&galaxy, s).unwrap();
            assert!(
                sector.get_link_count() <= MAX_SECTOR_LINKS
                    || (sector.get_link_count() <= MAX_SECTOR_LINKS + 1 && sector.linked_to(1))
            );
        }
    }
}

#[test]
fn hundred_sector_galaxy_places_ports_far_from_root() {
    let (galaxy, capped_ok) = Galaxy::new_conventional_galaxy(7, "Vega".to_string(), 100);
    check_structure(&galaxy, 100);

    let mut ported = Vec::new();
    let mut port_ids = Vec::new();
    for s in 1..=100 {
        let sector = get_sector(&galaxy, s).unwrap();
        if let Some(p) = sector.port_id {
            ported.push(s);
            // No two sectors share a port.
            assert!(!port_ids.contains(&p));
            port_ids.push(p);
        }
        assert!(!galaxy.find_shortest_path(s, 1).is_empty() || s == 1);
        assert!(galaxy.find_shortest_path_len(s, 1) <= DISTANCE_LIMIT);
    }
    // One port per fifteen sectors.
    assert_eq!(galaxy.num_ports(), 100 / 15);
    assert_eq!(ported.len(), 100 / 15);
    // Every port-bearing sector sits at least three jumps from the root.
    for s in ported {
        assert!(galaxy.find_shortest_path_len(s, 1) >= 3);
    }
    if capped_ok {
        for s in 1..=100 {
            let sector = get_sector(&galaxy, s).unwrap();
            assert!(
                sector.get_link_count() <= MAX_SECTOR_LINKS
                    || (sector.get_link_count() <= MAX_SECTOR_LINKS + 1 && sector.linked_to(1))
            );
        }
    }
}

#[test]
fn single_sector_galaxy_generates() {
    let (galaxy, _) = Galaxy::new_conventional_galaxy(3, "Lone".to_string(), 1);
    check_structure(&galaxy, 1);
    assert_eq!(galaxy.num_ports(), 0);
    assert!(galaxy.find_shortest_path(1, 1).is_empty());
}

#[test]
fn disjoint_sector_sets_partition_the_galaxy() {
    let mut galaxy = Galaxy::new(5, "Split".to_string());
    for _ in 0..6 {
        space_trader::sector::create_sector(&mut galaxy);
    }
    // Two globs: {1, 2, 3} and {4, 5}, with 6 isolated.
    space_trader::sector::link_sectors(&mut galaxy, 1, 2);
    space_trader::sector::link_sectors(&mut galaxy, 2, 3);
    space_trader::sector::link_sectors(&mut galaxy, 4, 5);
    let comps = galaxy.create_disjoint_sector_sets(1);
    assert_eq!(comps.len(), 3);
    assert_eq!(comps[0][0], 1);
    let mut first = comps[0].clone();
    first.sort();
    assert_eq!(first, vec![1, 2, 3]);
    let mut all: Vec<usize> = comps.iter().flatten().copied().collect();
    all.sort();
    assert_eq!(all, vec![1, 2, 3, 4, 5, 6]);
}

#[test]
fn repair_makes_every_sector_reachable() {
    let mut galaxy = Galaxy::new(6, "Mended".to_string());
    for _ in 0..6 {
        space_trader::sector::create_sector(&mut galaxy);
    }
    space_trader::sector::link_sectors(&mut galaxy, 1, 2);
    space_trader::sector::link_sectors(&mut galaxy, 3, 4);
    space_trader::sector::link_sectors(&mut galaxy, 5, 6);
    let capped_ok = galaxy.repair_connectivity();
    assert!(capped_ok);
    for s in 2..=6 {
        assert!(!galaxy.find_shortest_path(1, s).is_empty());
        assert!(!galaxy.find_shortest_path(s, 1).is_empty());
    }
}
