use mx::data_type::DataType;
use mx::item::ItemID;
use mx::item::ItemIDGenerator;

#[test]
fn identifiers_compare_by_number() {
    assert_eq!(ItemID::new(3), ItemID::new(3));
    assert_ne!(ItemID::new(3), ItemID::new(4));
    assert!(ItemID::new(3) < ItemID::new(4));
    for a in [0u64, 1, 2, 77, u64::MAX - 1, u64::MAX] {
        for b in [0u64, 1, 3, 77, u64::MAX] {
            assert_eq!(ItemID::new(a).partial_cmp(&ItemID::new(b)), Some(a.cmp(&b)));
            assert_eq!(ItemID::new(a).cmp(&ItemID::new(b)), a.cmp(&b));
            assert_eq!(ItemID::new(a) == ItemID::new(b), a == b);
        }
    }
}

#[test]
fn generator_counts_up() {
    let mut generator = ItemIDGenerator::new(5);
    assert_eq!(generator.next(), ItemID::new(5));
    assert_eq!(generator.next(), ItemID::new(6));
    assert_eq!(generator.next(), ItemID::new(7));
}

#[test]
fn generator_starts_again_after_the_greatest() {
    let mut generator = ItemIDGenerator::new(u64::MAX);
    assert_eq!(generator.next(), ItemID::new(u64::MAX));
    assert_eq!(generator.next(), ItemID::new(0));
}

#[test]
fn default_generator_starts_at_zero() {
    let mut generator = ItemIDGenerator::default();
    assert_eq!(generator.next(), ItemID::new(0));
}

#[test]
fn data_types_are_ordered_as_declared() {
    assert!(DataType::Blob < DataType::String);
    assert!(DataType::String < DataType::Float);
    assert!(DataType::Float < DataType::Int);
    assert!(DataType::Int < DataType::Bool);
    assert_eq!(DataType::Int, DataType::Int);
}
