//! Domains and columns.

use powerio_dist::web::{branch_table, bus_ids, domain_of, Branch, Domain};

#[test]
fn convert_rejects_cross_domain_like_desktop() {
    let err = domain_of("matpower", Domain::Transmission, "dss", Domain::Distribution).unwrap_err();
    assert!(err.contains("separate domains"), "got: {err}");
    assert_eq!(
        err,
        "Cannot convert between transmission and distribution formats (matpower \u{2192} dss) \
         \u{2014} they are separate domains."
    );
}

#[test]
fn conversions_within_a_domain_pass() {
    for d in [Domain::Transmission, Domain::Distribution] {
        assert_eq!(domain_of("a", d, "b", d), Ok(d));
    }
}

#[test]
fn branches_become_columns() {
    let list: Vec<Branch> = (0..3)
        .map(|i| Branch {
            from: i,
            to: i + 1,
            r: 10 + i as u64,
            x: 20,
            b: 30,
            tap: 0,
            shift: 40,
            in_service: i != 1,
        })
        .collect();
    let t = branch_table(&list);
    assert_eq!(t.from, [0, 1, 2]);
    assert_eq!(t.to, [1, 2, 3]);
    assert_eq!(t.r, [10, 11, 12]);
    assert_eq!(t.x, [20, 20, 20]);
    assert_eq!(t.b, [30, 30, 30]);
    assert_eq!(t.tap, [0, 0, 0]);
    assert_eq!(t.shift, [40, 40, 40]);
    assert_eq!(t.in_service, [1, 0, 1]);
    assert_eq!(bus_ids(&vec![1, usize::MAX]), [1, -1]);
}
