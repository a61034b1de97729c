use bitonic_sorter::SortOrder::{Ascending, Descending};
use bitonic_sorter::{
    is_sorted_ascending, is_sorted_descending, new_u32_vec, sort, sort_by, sort_by_with_threshold,
    sort_with_threshold, SortError,
};

#[derive(Debug, PartialEq)]
struct Student {
    first_name: String,
    last_name: String,
    age: u8,
}

impl Student {
    fn new(first_name: &str, last_name: &str, age: u8) -> Self {
        Self {
            first_name: first_name.to_string(),
            last_name: last_name.to_string(),
            age,
        }
    }
}

#[test]
fn sort_students_by_age_ascending() {
    let taro = Student::new("Taro", "Yamada", 16);
    let hanako = Student::new("Hanako", "Yamada", 14);
    let kyoko = Student::new("Kyoko", "Ito", 15);
    let ryosuke = Student::new("Ryosuke", "Hayashi", 17);

    let mut x = vec![&taro, &hanako, &kyoko, &ryosuke];
    let expected = vec![&hanako, &kyoko, &taro, &ryosuke];

    assert_eq!(sort_by(&mut x, &|a, b| a.age.cmp(&b.age)), Ok(()));
    assert_eq!(x, expected);
}

#[test]
fn third_sort_students_by_age_ascending() {
    let taro = Student::new("Taro", "Yamada", 16);
    let hanako = Student::new("Hanako", "Yamada", 14);
    let kyoko = Student::new("Kyoko", "Ito", 15);
    let ryosuke = Student::new("Ryosuke", "Hayashi", 17);

    let mut x = vec![&taro, &hanako, &kyoko, &ryosuke];
    let expected = vec![&hanako, &kyoko, &taro, &ryosuke];

    assert_eq!(sort_by(&mut x, &|a, b| a.age.cmp(&b.age)), Ok(()));
    assert_eq!(x, expected);
}

#[test]
fn third_sort_students_by_name_ascending() {
    let taro = Student::new("Taro", "Yamada", 16);
    let hanako = Student::new("Hanako", "Yamada", 14);
    let kyoko = Student::new("Kyoko", "Ito", 15);
    let ryosuke = Student::new("Ryosuke", "Hayashi", 17);

    let mut x = vec![&taro, &hanako, &kyoko, &ryosuke];
    let expected = vec![&ryosuke, &kyoko, &hanako, &taro];

    assert_eq!(
        sort_by(
            &mut x,
            &|a, b| a
                .last_name
                .cmp(&b.last_name)
                .then_with(|| a.first_name.cmp(&b.first_name))
        ),
        Ok(())
    );
    assert_eq!(x, expected);
}

#[test]
fn fourth_sort_students_by_age_ascending() {
    let taro = Student::new("Taro", "Yamada", 16);
    let hanako = Student::new("Hanako", "Yamada", 14);
    let kyoko = Student::new("Kyoko", "Ito", 15);
    let ryosuke = Student::new("Ryosuke", "Hayashi", 17);

    let mut x = vec![&taro, &hanako, &kyoko, &ryosuke];
    let expected = vec![&hanako, &kyoko, &taro, &ryosuke];

    assert_eq!(sort_by(&mut x, &|a, b| a.age.cmp(&b.age)), Ok(()));
    assert_eq!(x, expected);
}

#[test]
fn fourth_sort_students_by_name_ascending() {
    let taro = Student::new("Taro", "Yamada", 16);
    let hanako = Student::new("Hanako", "Yamada", 14);
    let kyoko = Student::new("Kyoko", "Ito", 15);
    let ryosuke = Student::new("Ryosuke", "Hayashi", 17);

    let mut x = vec![&taro, &hanako, &kyoko, &ryosuke];
    let expected = vec![&ryosuke, &kyoko, &hanako, &taro];

    assert_eq!(
        sort_by(
            &mut x,
            &|a, b| a
                .last_name
                .cmp(&b.last_name)
                .then_with(|| a.first_name.cmp(&b.first_name))
        ),
        Ok(())
    );
    assert_eq!(x, expected);
}

#[test]
fn sort_u32_ascending() {
    let mut x: Vec<u32> = vec![10, 30, 11, 20, 4, 330, 21, 110];
    assert_eq!(sort(&mut x, &Ascending), Ok(()));
    assert_eq!(x, vec![4, 10, 11, 20, 21, 30, 110, 330]);
}

#[test]
fn sort_u32_descending() {
    let mut x: Vec<u32> = vec![10, 30, 11, 20, 4, 330, 21, 110];
    assert_eq!(sort(&mut x, &Descending), Ok(()));
    assert_eq!(x, vec![330, 110, 30, 21, 20, 11, 10, 4]);
}

#[test]
fn sort_str_ascending() {
    let mut x = vec!["Rust", "is", "fast", "and", "memory-efficient", "with", "no", "GC"];
    assert_eq!(sort(&mut x, &Ascending), Ok(()));
    assert_eq!(x, vec!["GC", "Rust", "and", "fast", "is", "memory-efficient", "no", "with"]);
}

#[test]
fn sort_str_descending() {
    let mut x = vec!["Rust", "is", "fast", "and", "memory-efficient", "with", "no", "GC"];
    assert_eq!(sort(&mut x, &Descending), Ok(()));
    assert_eq!(x, vec!["with", "no", "memory-efficient", "is", "fast", "and", "Rust", "GC"]);
}

#[test]
fn sort_to_fail() {
    let mut x = vec![10, 30, 11];
    assert!(sort(&mut x, &Ascending).is_err());
}

#[test]
fn third_sort_u32_large() {
    {
        let mut x = new_u32_vec(65536);
        assert_eq!(sort(&mut x, &Ascending), Ok(()));
        assert!(is_sorted_ascending(&x));
    }
    {
        let mut x = new_u32_vec(65536);
        assert_eq!(sort(&mut x, &Descending), Ok(()));
        assert!(is_sorted_descending(&x));
    }
}

#[test]
fn fourth_sort_u32_large() {
    {
        let mut x = new_u32_vec(65536);
        assert_eq!(sort(&mut x, &Ascending), Ok(()));
        assert!(is_sorted_ascending(&x));
    }
    {
        let mut x = new_u32_vec(65536);
        assert_eq!(sort(&mut x, &Descending), Ok(()));
        assert!(is_sorted_descending(&x));
    }
}

#[test]
fn invalid_length_reports_the_length_and_leaves_input_unchanged() {
    let mut x: Vec<u32> = vec![10, 30, 11];
    assert_eq!(sort(&mut x, &Ascending), Err(SortError::InvalidLength { len: 3 }));
    assert_eq!(x, vec![10, 30, 11]);

    let mut y: Vec<u32> = vec![1, 2, 3, 4, 5];
    assert_eq!(
        sort_by(&mut y, &|a, b| a.cmp(b)),
        Err(SortError::InvalidLength { len: 5 })
    );
    assert_eq!(y, vec![1, 2, 3, 4, 5]);
}

#[test]
fn empty_and_singleton_lengths_are_accepted() {
    let mut empty: Vec<u32> = vec![];
    assert_eq!(sort(&mut empty, &Ascending), Ok(()));
    assert_eq!(empty, Vec::<u32>::new());

    let mut one: Vec<u32> = vec![7];
    assert_eq!(sort(&mut one, &Descending), Ok(()));
    assert_eq!(one, vec![7]);
}

#[test]
fn threshold_choice_does_not_change_the_result() {
    let input: Vec<u32> = vec![10, 30, 11, 20, 4, 330, 21, 110];

    let mut sequential = input.clone();
    assert_eq!(
        sort_with_threshold(&mut sequential, &Ascending, usize::MAX),
        Ok(())
    );

    let mut parallel = input.clone();
    assert_eq!(sort_with_threshold(&mut parallel, &Ascending, 1), Ok(()));
    assert_eq!(sequential, parallel);

    let mut by_sequential = input.clone();
    assert_eq!(
        sort_by_with_threshold(&mut by_sequential, &|a: &u32, b: &u32| b.cmp(a), usize::MAX),
        Ok(())
    );
    let mut by_parallel = input.clone();
    assert_eq!(
        sort_by_with_threshold(&mut by_parallel, &|a: &u32, b: &u32| b.cmp(a), 1),
        Ok(())
    );
    assert_eq!(by_sequential, by_parallel);
    assert_eq!(by_sequential, vec![330, 110, 30, 21, 20, 11, 10, 4]);
}

#[test]
fn sorting_a_sorted_sequence_changes_nothing() {
    let mut x: Vec<u32> = vec![10, 30, 11, 20, 4, 330, 21, 110];
    assert_eq!(sort(&mut x, &Ascending), Ok(()));
    let once = x.clone();
    assert_eq!(sort(&mut x, &Ascending), Ok(()));
    assert_eq!(x, once);
}

#[test]
fn sorting_sorted_students_with_tied_ages_changes_nothing() {
    let taro = Student::new("Taro", "Yamada", 16);
    let jiro = Student::new("Jiro", "Suzuki", 16);
    let kyoko = Student::new("Kyoko", "Ito", 15);
    let ryosuke = Student::new("Ryosuke", "Hayashi", 17);

    let mut x = vec![&kyoko, &taro, &jiro, &ryosuke];
    assert_eq!(sort_by(&mut x, &|a, b| a.age.cmp(&b.age)), Ok(()));
    let once = x.clone();
    assert_eq!(sort_by(&mut x, &|a, b| a.age.cmp(&b.age)), Ok(()));
    assert_eq!(x, once);
}

#[test]
fn duplicates_are_neither_lost_nor_invented() {
    let mut x: Vec<u32> = vec![3, 1, 3, 1];
    assert_eq!(sort(&mut x, &Ascending), Ok(()));
    assert_eq!(x, vec![1, 1, 3, 3]);
}

#[test]
fn inverse_comparators_give_reversed_results() {
    let input: Vec<u32> = vec![10, 30, 11, 20, 4, 330, 21, 110];

    let mut forward = input.clone();
    assert_eq!(sort_by(&mut forward, &|a: &u32, b: &u32| a.cmp(b)), Ok(()));

    let mut inverse = input.clone();
    assert_eq!(sort_by(&mut inverse, &|a: &u32, b: &u32| b.cmp(a)), Ok(()));

    let mut reversed = forward.clone();
    reversed.reverse();
    assert_eq!(inverse, reversed);
}

#[test]
fn new_u32_vec_is_reproducible_and_sized() {
    let a = new_u32_vec(100);
    let b = new_u32_vec(100);
    assert_eq!(a.len(), 100);
    assert_eq!(a, b);
    assert!(new_u32_vec(0).is_empty());
}

#[test]
fn sortedness_checks_agree_with_examples() {
    assert!(is_sorted_ascending(&[1u32, 2, 2, 9]));
    assert!(!is_sorted_ascending(&[2u32, 1]));
    assert!(is_sorted_descending(&[9u32, 2, 2, 1]));
    assert!(!is_sorted_descending(&[1u32, 2]));
    assert!(is_sorted_ascending(&Vec::<u32>::new()));
    assert!(is_sorted_descending(&[5u32]));
}
