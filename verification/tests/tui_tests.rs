use mirage::protocol::Profile;
use mirage::tui::{next_index, previous_index, profile_details};

#[test]
fn moving_down_wraps_to_the_top() {
    assert_eq!(next_index(Some(0), 3), 1);
    assert_eq!(next_index(Some(2), 3), 0);
    assert_eq!(next_index(None, 3), 0);
    assert_eq!(next_index(Some(0), 0), 0);
}

#[test]
fn moving_up_wraps_to_the_bottom() {
    assert_eq!(previous_index(Some(2), 3), 1);
    assert_eq!(previous_index(Some(0), 3), 2);
    assert_eq!(previous_index(None, 3), 0);
    assert_eq!(previous_index(Some(0), 0), 0);
}

#[test]
fn up_undoes_down() {
    for len in 1..6usize {
        for i in 0..len {
            assert_eq!(previous_index(Some(next_index(Some(i), len)), len), i);
            assert_eq!(next_index(Some(previous_index(Some(i), len)), len), i);
        }
    }
}

#[test]
fn details_of_a_sparse_profile() {
    let p = Profile::named("tokyo".to_string());
    let rows = profile_details(&p, None);
    assert_eq!(rows.len(), 8);
    assert_eq!(rows[0], ("Name: ".to_string(), "tokyo".to_string()));
    assert_eq!(rows[1], ("Hostname: ".to_string(), "N/A".to_string()));
    assert_eq!(rows[7], ("Isolate Network: ".to_string(), "No".to_string()));
}

#[test]
fn details_with_position_and_dns() {
    let mut p = Profile::named("london".to_string());
    p.isolate_network = Some(true);
    p.dns = Some(vec!["1.1.1.1".to_string(), "9.9.9.9".to_string()]);
    let rows = profile_details(&p, Some("51.5074, -0.1278".to_string()));
    assert_eq!(rows.len(), 10);
    assert_eq!(rows[7].1, "Yes");
    assert_eq!(rows[8], ("GPS: ".to_string(), "51.5074, -0.1278".to_string()));
    assert_eq!(rows[9], ("DNS: ".to_string(), "1.1.1.1, 9.9.9.9".to_string()));
}
