use rust_course::liquids::{Liquid, Oil, Water};

#[test]
fn water_describes_itself() {
    assert_eq!(Water.description(), "water");
}

#[test]
fn oil_describes_itself() {
    assert_eq!(Oil.description(), "oil");
}

#[test]
fn liquids_behind_the_trait_keep_their_descriptions() {
    let liquids: Vec<Box<dyn Liquid>> = vec![Box::new(Water), Box::new(Oil), Box::new(Water)];
    let names: Vec<&str> = liquids.iter().map(|l| l.description()).collect();
    assert_eq!(names, vec!["water", "oil", "water"]);
}
