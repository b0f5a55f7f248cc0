use raycaster::lighting::{lit_terms, Terms};
use raycaster::scalar::Scalar;

fn scalar(x: f32) -> Scalar {
    Scalar::from_bits(x.to_bits())
}

#[test]
fn light_behind_the_surface_leaves_ambient_alone() {
    assert_eq!(lit_terms(scalar(-1.0), scalar(1.0)), Terms::Ambient);
    assert_eq!(lit_terms(scalar(-1.0e-30), scalar(0.5)), Terms::Ambient);
    assert_eq!(lit_terms(scalar(-0.25), scalar(-0.5)), Terms::Ambient);
    assert_eq!(lit_terms(scalar(-0.25), scalar(f32::NAN)), Terms::Ambient);
}

#[test]
fn eye_in_the_reflection_gets_all_three_terms() {
    assert_eq!(lit_terms(scalar(1.0), scalar(1.0)), Terms::All);
    assert_eq!(lit_terms(scalar(0.0), scalar(1.0e-30)), Terms::All);
}

#[test]
fn reflection_away_from_the_eye_has_no_specular_term() {
    assert_eq!(lit_terms(scalar(1.0), scalar(-0.70710677)), Terms::AmbientDiffuse);
    assert_eq!(lit_terms(scalar(1.0), scalar(0.0)), Terms::AmbientDiffuse);
    assert_eq!(lit_terms(scalar(0.5), scalar(-0.0)), Terms::AmbientDiffuse);
}

#[test]
fn grazing_light_still_counts_as_in_front() {
    assert_eq!(lit_terms(scalar(0.0), scalar(-1.0)), Terms::AmbientDiffuse);
    assert_eq!(lit_terms(scalar(-0.0), scalar(-1.0)), Terms::AmbientDiffuse);
}

#[test]
fn cosine_that_holds_no_number_fails_both_comparisons() {
    assert_eq!(lit_terms(scalar(f32::NAN), scalar(-1.0)), Terms::AmbientDiffuse);
    assert_eq!(lit_terms(scalar(f32::NAN), scalar(f32::NAN)), Terms::All);
    assert_eq!(lit_terms(scalar(1.0), scalar(f32::NAN)), Terms::All);
}

#[test]
fn terms_say_which_parts_they_hold() {
    assert!(!Terms::Ambient.has_diffuse());
    assert!(!Terms::Ambient.has_specular());
    assert!(Terms::AmbientDiffuse.has_diffuse());
    assert!(!Terms::AmbientDiffuse.has_specular());
    assert!(Terms::All.has_diffuse());
    assert!(Terms::All.has_specular());
}
