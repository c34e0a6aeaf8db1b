use walkers::InvalidZoom;
use walkers::Zoom;

#[test]
fn test_constructing_zoom() {
    assert_eq!(16, Zoom::default().get());
    assert_eq!(19, Zoom::try_from(19).unwrap().get());
    assert_eq!(Err(InvalidZoom), Zoom::try_from(20));
}

#[test]
fn test_zooming_in_and_out() {
    let mut zoom = Zoom::try_from(18).unwrap();
    assert!(zoom.try_zoom_in().is_ok());
    assert_eq!(Err(InvalidZoom), zoom.try_zoom_in());
}

#[test]
fn zoom_construction_covers_the_whole_range() {
    for z in 0u8..=19 {
        assert_eq!(z, Zoom::try_from(z).unwrap().get());
    }
    for z in 20u8..=255 {
        assert_eq!(Err(InvalidZoom), Zoom::try_from(z));
    }
}

#[test]
fn zoom_increment_fails_at_the_maximum() {
    let mut zoom = Zoom::try_from(19).unwrap();
    assert_eq!(Err(InvalidZoom), zoom.try_zoom_in());
    assert_eq!(19, zoom.get());
}

#[test]
fn zoom_decrement_fails_at_zero() {
    let mut zoom = Zoom::try_from(0).unwrap();
    assert_eq!(Err(InvalidZoom), zoom.try_zoom_out());
    assert_eq!(0, zoom.get());
    let mut other = Zoom::try_from(5).unwrap();
    assert!(other.try_zoom_out().is_ok());
    assert_eq!(4, other.get());
}
