use proxyia::search::{candidate_count, check_vectors, density_of, Density, SearchError};

#[test]
fn density_tiers() {
    assert_eq!(density_of(0), Density::Isolated);
    assert_eq!(density_of(2), Density::Isolated);
    assert_eq!(density_of(3), Density::Medium);
    assert_eq!(density_of(5), Density::Medium);
    assert_eq!(density_of(6), Density::Dense);
}

#[test]
fn candidates_and_vectors() {
    assert_eq!(candidate_count(5), 10);
    assert_eq!(check_vectors(0), Err(SearchError::NoVectors));
    assert_eq!(check_vectors(3), Ok(()));
}
