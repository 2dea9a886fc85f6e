use wpilib::geometry::Translation2d;
use wpilib::geometry::Translation3d;
use wpilib::units::Feet;
use wpilib::units::Meter;

#[test]
fn translation2d() {
    let blahaj_1 = Translation2d::new(Meter::new(1_000_000), Meter::new(1_000_000));
    let blahaj_2 = Translation2d::new(Meter::new(2_000_000), Meter::new(2_000_000));

    // Addition
    assert_eq!(
        blahaj_1 + blahaj_2,
        Translation2d::new(Meter::new(3_000_000), Meter::new(3_000_000))
    );
    let mut temp = blahaj_1;
    temp = temp + blahaj_1;
    assert_eq!(temp, Translation2d::new(Meter::new(2_000_000), Meter::new(2_000_000)));

    // Subtraction
    assert_eq!(
        blahaj_1 - blahaj_2,
        Translation2d::new(Meter::new(-1_000_000), Meter::new(-1_000_000))
    );
    let mut temp = blahaj_1;
    temp = temp - blahaj_1;
    assert_eq!(temp, Translation2d::new(Meter::new(0), Meter::new(0)));

    // Multiplication
    assert_eq!(
        blahaj_1 * 2,
        Translation2d::new(Meter::new(2_000_000), Meter::new(2_000_000))
    );
    assert_eq!(
        blahaj_1.times(2),
        Translation2d::new(Meter::new(2_000_000), Meter::new(2_000_000))
    );

    // Division
    assert_eq!(
        blahaj_1 / 2,
        Translation2d::new(Meter::new(500_000), Meter::new(500_000))
    );

    // Equality
    assert_eq!(
        blahaj_1,
        Translation2d::new(Meter::new(1_000_000), Meter::new(1_000_000))
    );
}

#[test]
fn translation3d() {
    let blahaj_1 = Translation3d::new(
        Meter::new(1_000_000),
        Meter::new(1_000_000),
        Meter::new(1_000_000),
    );
    let blahaj_2 = Translation3d::new(
        Meter::new(2_000_000),
        Meter::new(2_000_000),
        Meter::new(2_000_000),
    );

    // Addition
    assert_eq!(
        blahaj_1 + blahaj_2,
        Translation3d::new(Meter::new(3_000_000), Meter::new(3_000_000), Meter::new(3_000_000))
    );
    let mut temp = blahaj_1;
    temp = temp + blahaj_1;
    assert_eq!(temp, blahaj_2);

    // Subtraction
    assert_eq!(
        blahaj_1 - blahaj_2,
        Translation3d::new(
            Meter::new(-1_000_000),
            Meter::new(-1_000_000),
            Meter::new(-1_000_000)
        )
    );
    let mut temp = blahaj_1;
    temp = temp - blahaj_1;
    assert_eq!(temp, Translation3d::default());

    // Multiplication
    assert_eq!(blahaj_1 * 2, blahaj_2);
    assert_eq!(blahaj_1.times(2), blahaj_2);
    let mut temp = blahaj_1;
    temp = temp * 2;
    assert_eq!(temp, blahaj_2);

    // Division
    assert_eq!(
        blahaj_1 / 2,
        Translation3d::new(Meter::new(500_000), Meter::new(500_000), Meter::new(500_000))
    );
    let mut temp = blahaj_1;
    temp = temp / 2;
    assert_eq!(
        temp,
        Translation3d::new(Meter::new(500_000), Meter::new(500_000), Meter::new(500_000))
    );
}

#[test]
fn test_meter_to_feet() {
    let meter = Meter::new(1_000_000);
    let feet = Feet::new(3_280_840);
    assert_eq!(feet, meter);
    assert_eq!(meter, feet);
    let double = feet + meter;
    assert!(double == Feet::new(6_561_680));
    assert!(double == Meter::new(2_000_000));
    assert!(double > feet);
}
