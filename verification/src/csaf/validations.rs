pub mod test_6_1_03;
pub mod test_6_1_46;
pub mod test_6_1_49;
