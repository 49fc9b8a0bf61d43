use space_trader::galaxy::Galaxy;
use space_trader::sector::{create_sector, get_sector, link_sectors};

fn chain_of_three() -> Galaxy {
    let mut galaxy = Galaxy::new(1, "Kronos".to_string());
    let a = create_sector(&mut galaxy);
    let b = create_sector(&mut galaxy);
    let c = create_sector(&mut galaxy);
    assert_eq!((a, b, c), (1, 2, 3));
    link_sectors(&mut galaxy, 1, 2);
    link_sectors(&mut galaxy, 2, 3);
    galaxy
}

#[test]
fn shortest_path_on_three_sector_chain() {
    let galaxy = chain_of_three();
    assert_eq!(galaxy.find_shortest_path(1, 3), vec![2, 3]);
    assert_eq!(galaxy.find_shortest_path(3, 1), vec![2, 1]);
    assert!(galaxy.find_shortest_path_avoiding(1, 3, &vec![2]).is_empty());
}

#[test]
fn path_to_self_is_empty() {
    let galaxy = chain_of_three();
    assert!(galaxy.find_shortest_path(2, 2).is_empty());
    assert_eq!(galaxy.find_shortest_path_len(2, 2), 0);
}

#[test]
fn direct_link_is_single_step() {
    let galaxy = chain_of_three();
    assert_eq!(galaxy.find_shortest_path(1, 2), vec![2]);
    assert_eq!(galaxy.find_shortest_path_len(1, 2), 1);
}

#[test]
fn unknown_sectors_yield_empty_results() {
    let galaxy = chain_of_three();
    assert!(galaxy.find_shortest_path(9, 1).is_empty());
    assert!(galaxy.find_shortest_path(1, 9).is_empty());
    assert!(get_sector(&galaxy, 9).is_none());
    assert!(get_sector(&galaxy, 0).is_none());
}

fn diamond() -> Galaxy {
    let mut galaxy = Galaxy::new(2, "Diamond".to_string());
    for _ in 0..4 {
        create_sector(&mut galaxy);
    }
    link_sectors(&mut galaxy, 1, 2);
    link_sectors(&mut galaxy, 1, 3);
    link_sectors(&mut galaxy, 2, 4);
    link_sectors(&mut galaxy, 3, 4);
    galaxy
}

#[test]
fn avoidance_reroutes_around_blocked_sector() {
    let galaxy = diamond();
    let free = galaxy.find_shortest_path(1, 4);
    assert_eq!(free.len(), 2);
    assert_eq!(*free.last().unwrap(), 4);

    let detour = galaxy.find_shortest_path_avoiding(1, 4, &vec![2]);
    assert_eq!(detour, vec![3, 4]);
}

#[test]
fn avoidance_never_visits_blocked_sectors() {
    let galaxy = diamond();
    let avoiding = vec![2];
    let path = galaxy.find_shortest_path_avoiding(1, 4, &avoiding);
    for step in path.iter().take(path.len().saturating_sub(1)) {
        assert!(!avoiding.contains(step));
    }
}

#[test]
fn fully_blocked_path_is_empty() {
    let galaxy = diamond();
    assert!(galaxy.find_shortest_path_avoiding(1, 4, &vec![2, 3]).is_empty());
}

#[test]
fn destination_is_exempt_from_avoidance() {
    let galaxy = diamond();
    let path = galaxy.find_shortest_path_avoiding(1, 4, &vec![4]);
    assert_eq!(path.len(), 2);
    assert_eq!(*path.last().unwrap(), 4);
}

#[test]
fn shorter_branch_wins() {
    // A ring with a chord: 1-2-3-4 plus a direct 1-4 link.
    let mut galaxy = Galaxy::new(3, "Ring".to_string());
    for _ in 0..4 {
        create_sector(&mut galaxy);
    }
    link_sectors(&mut galaxy, 1, 2);
    link_sectors(&mut galaxy, 2, 3);
    link_sectors(&mut galaxy, 3, 4);
    link_sectors(&mut galaxy, 1, 4);
    assert_eq!(galaxy.find_shortest_path(1, 4), vec![4]);
    assert_eq!(galaxy.find_shortest_path_len(1, 3), 2);
    // With the chord's far end blocked as an intermediate, the long way
    // remains.
    assert_eq!(galaxy.find_shortest_path_avoiding(1, 3, &vec![2]), vec![4, 3]);
}

#[test]
fn get_sector_returns_links_and_id() {
    let galaxy = chain_of_three();
    let sector = get_sector(&galaxy, 2).unwrap();
    assert_eq!(sector.sector_id, 2);
    let mut links = sector.sector_links.clone();
    links.sort();
    assert_eq!(links, vec![1, 3]);
    assert!(!sector.has_port());
    assert!(!sector.has_planet());
    assert_eq!(sector.get_link_count(), 2);
    assert!(!sector.has_max_links());
}
