use bevy::platform::collections::HashSet;
use pixie_wrangler::pixie::{pixie_arrived, pixie_draw_layer, resolve_encounters, Encounter, Following};

fn sorted(s: &HashSet<u64>) -> Vec<u64> {
    let mut v: Vec<u64> = s.iter().copied().collect();
    v.sort();
    v
}

fn enc(pixie: u64, lead: u64, same_color: bool, close: bool) -> Encounter {
    Encounter { pixie, lead, same_color, within_explosion_distance: close }
}

#[test]
fn different_colors_close_together_annihilate() {
    let (explosions, followings) = resolve_encounters(&vec![enc(3, 4, false, true), enc(4, 5, true, false)]);
    assert_eq!(sorted(&explosions), vec![3, 4]);
    assert!(followings.is_empty());
}

#[test]
fn same_color_followers_never_follow_each_other() {
    let (explosions, followings) = resolve_encounters(&vec![enc(1, 2, true, false), enc(2, 1, true, false)]);
    assert!(explosions.is_empty());
    assert_eq!(followings, vec![Following { pixie: 1, lead: 2, attractor: false, encounter: 0 }]);
}

#[test]
fn an_attractor_ignores_other_colors() {
    let (explosions, followings) = resolve_encounters(&vec![
        enc(5, 6, false, false),
        enc(6, 7, false, false),
        enc(6, 8, true, false),
    ]);
    assert!(explosions.is_empty());
    assert_eq!(
        followings,
        vec![
            Following { pixie: 5, lead: 6, attractor: true, encounter: 0 },
            Following { pixie: 6, lead: 8, attractor: false, encounter: 2 },
        ]
    );
}

#[test]
fn exploding_pixies_do_nothing_else() {
    let (explosions, followings) = resolve_encounters(&vec![
        enc(1, 2, false, true),
        enc(3, 1, true, false),
        enc(2, 4, true, false),
        enc(3, 4, true, false),
    ]);
    assert_eq!(sorted(&explosions), vec![1, 2]);
    assert_eq!(followings, vec![Following { pixie: 3, lead: 4, attractor: false, encounter: 3 }]);
}

#[test]
fn no_two_pixies_follow_each_other() {
    // each pixie sees one lead: the nearest pixie ahead of it
    let mut encounters = vec![];
    for a in 1..9u64 {
        let b = (a * 5) % 9 + 1;
        if a != b {
            encounters.push(enc(a, b, (a + b) % 3 != 0, false));
        }
    }
    for (a, b, same) in [(21, 22, true), (22, 21, true), (23, 24, false), (24, 23, false), (25, 26, true), (26, 25, false)] {
        encounters.push(enc(a, b, same, false));
    }
    let (_, followings) = resolve_encounters(&encounters);
    for f in followings.iter() {
        for g in followings.iter() {
            assert!(!(f.pixie == g.lead && f.lead == g.pixie));
        }
    }
}

#[test]
fn pixies_stay_above_the_roads_they_cross() {
    let layers = vec![2, 1, 3, 3];
    // going uphill onto layer 1: above it once near
    assert_eq!(pixie_draw_layer(&layers, 0, true, false), 1);
    assert_eq!(pixie_draw_layer(&layers, 0, false, false), 2);
    // leaving layer 1 for layer 3: above layer 1 while near it
    assert_eq!(pixie_draw_layer(&layers, 2, false, true), 1);
    assert_eq!(pixie_draw_layer(&layers, 2, false, false), 3);
    assert_eq!(pixie_draw_layer(&layers, 1, true, true), 1);
    // the last segment has no next one
    assert_eq!(pixie_draw_layer(&layers, 3, true, true), 3);
    assert_eq!(pixie_draw_layer(&vec![2], 0, true, true), 2);
}

#[test]
fn arrival_is_past_the_last_segment() {
    assert!(!pixie_arrived(0, 3));
    assert!(!pixie_arrived(2, 3));
    assert!(pixie_arrived(3, 3));
    assert!(pixie_arrived(1, 1));
}

#[test]
fn only_close_pixies_of_different_colors_annihilate() {
    // same color and close, different colors but far: nobody annihilates
    let (explosions, followings) =
        resolve_encounters(&vec![enc(1, 2, true, true), enc(3, 4, false, false)]);
    assert!(explosions.is_empty());
    assert_eq!(followings.len(), 2);
    // a close pair of different colors annihilates; the others do not
    let (explosions, _) = resolve_encounters(&vec![
        enc(1, 2, true, true),
        enc(5, 6, false, true),
        enc(3, 4, false, false),
    ]);
    assert_eq!(sorted(&explosions), vec![5, 6]);
}
