use rust_dataframes::data_frame_modules::data_series::{DataSeries, UpdateError};
use rust_dataframes::data_frame_modules::label_order::exceeds;
use rust_dataframes::data_frame_modules::rendering::compose_line;
use rust_dataframes::data_frame_modules::series_index::SeriesIndex;
use rust_dataframes::data_frame_modules::sorting::{
    descending_positions_of, sort_by_label, sort_in_direction,
};
use rust_dataframes::data_frame_modules::value_cell::{DebugAny, ValueCell};

fn keys_of(series: &DataSeries<usize>) -> Vec<usize> {
    series.index().iter().map(|entry| entry.key).collect()
}

fn labels_of(series: &DataSeries<usize>) -> Vec<usize> {
    series.index().iter().map(|entry| entry.label).collect()
}

#[test]
fn keys_count_up_from_zero() {
    let mut series = DataSeries::<usize>::new();
    for n in 0..5usize {
        series.push(n * 10, n as i64);
        assert_eq!(series.index()[n].key, n);
        assert_eq!(series.next_key_value(), n + 1);
    }
    assert_eq!(keys_of(&series), vec![0, 1, 2, 3, 4]);
}

#[test]
fn removal_never_rewinds_or_reuses_a_key() {
    let mut series = DataSeries::<usize>::new();
    series.push(7, 1u8);
    series.push(8, 2u8);
    series.push(9, 3u8);
    assert!(series.remove(2).is_some());
    assert!(series.remove(0).is_some());
    assert_eq!(series.next_key_value(), 3);
    assert_eq!(keys_of(&series), vec![1]);
    series.push(10, 4u8);
    assert_eq!(keys_of(&series), vec![1, 3]);
    assert_eq!(series.next_key_value(), 4);
    assert!(series.remove(0).is_some());
    assert!(series.remove(0).is_some());
    assert_eq!(series.len(), 0);
    assert_eq!(series.next_key_value(), 4);
    series.push(11, 5u8);
    assert_eq!(keys_of(&series), vec![4]);
}

#[test]
fn order_cells_and_descriptors_are_equally_many() {
    let mut series = DataSeries::<usize>::new();
    let check = |series: &DataSeries<usize>, n: usize| {
        assert_eq!(series.len(), n);
        assert_eq!(series.index().len(), n);
        assert_eq!(series.data().len(), n);
        assert_eq!(series.type_map().len(), n);
        for entry in series.index().iter() {
            assert!(series.data().contains_key(&entry.key));
            assert!(series.type_map().contains_key(&entry.key));
        }
    };
    check(&series, 0);
    series.push(3, "a");
    check(&series, 1);
    series.push(1, 2.5f64);
    check(&series, 2);
    series.push(2, vec![1u8]);
    check(&series, 3);
    series.sort();
    check(&series, 3);
    assert!(series.remove(1).is_some());
    check(&series, 2);
    assert!(series.remove(5).is_none());
    check(&series, 2);
    series.update::<&str>(1, "b");
    check(&series, 2);
    assert!(series.remove(0).is_some());
    assert!(series.remove(0).is_some());
    check(&series, 0);
}

#[test]
fn empty_series_gives_nothing() {
    let mut series = DataSeries::<String>::new();
    assert_eq!(series.len(), 0);
    assert_eq!(series.data().len(), 0);
    assert_eq!(series.type_map().len(), 0);
    assert_eq!(series.next_key_value(), 0);
    for index in [0usize, 1, 2, 100, usize::MAX] {
        assert_eq!(series.get::<i32>(index), None);
        assert!(series.get_mut::<i32>(index).is_none());
        assert!(series.remove(index).is_none());
        assert_eq!(series.line(index), None);
        assert_eq!(series.try_update::<i32>(index, 1), Ok(()));
    }
    series.sort();
    assert_eq!(series.len(), 0);
    assert_eq!(series.next_key_value(), 0);
    assert!(series.lines().is_empty());
    assert!(series.lines_reverse().is_empty());
    assert!(series.descending_positions().is_empty());
}

#[test]
fn default_series_is_empty() {
    let series = DataSeries::<usize>::default();
    assert_eq!(series.len(), 0);
    assert_eq!(series.next_key_value(), 0);
}

#[test]
fn read_is_checked_against_the_stored_type() {
    let mut series = DataSeries::<String>::new();
    series.push("A".to_string(), 1i32);
    assert_eq!(series.get::<i32>(0), Some(&1));
    assert_eq!(series.get::<&str>(0), None);
    assert_eq!(series.get::<i64>(0), None);
    assert_eq!(series.get::<u32>(0), None);
    assert_eq!(series.get::<i32>(1), None);
    assert!(series.get_mut::<i64>(0).is_none());
    assert!(series.get_mut::<i32>(1).is_none());
    assert_eq!(series.get::<i32>(0), Some(&1));
}

#[test]
fn remove_moves_later_entries_up() {
    let mut series = DataSeries::<usize>::new();
    series.push(10, 'a');
    series.push(20, 'b');
    series.push(30, 'c');
    let removed = series.remove(1).unwrap();
    assert_eq!(removed.downcast_ref::<char>(), Some(&'b'));
    assert_eq!(removed.downcast_ref::<u8>(), None);
    assert_eq!(series.len(), 2);
    assert_eq!(series.get::<char>(0), Some(&'a'));
    assert_eq!(series.get::<char>(1), Some(&'c'));
    assert_eq!(labels_of(&series), vec![10, 30]);
    assert_eq!(keys_of(&series), vec![0, 2]);
    series.push(40, 'd');
    assert_eq!(series.get::<char>(2), Some(&'d'));
    assert_eq!(keys_of(&series), vec![0, 2, 3]);
    assert!(series.remove(3).is_none());
    assert_eq!(series.len(), 3);
}

#[test]
fn update_replaces_a_value_of_the_same_type() {
    let mut series = DataSeries::<String>::new();
    series.push("Item 1".to_string(), 1i32);
    series.push("Item 2".to_string(), "two");
    series.update::<i32>(0, 100);
    assert_eq!(series.get::<i32>(0), Some(&100));
    assert_eq!(series.get::<&str>(1), Some(&"two"));
    series.update::<i32>(5, 7);
    assert_eq!(series.len(), 2);
    assert_eq!(series.get::<i32>(0), Some(&100));
    assert_eq!(series.next_key_value(), 2);
    assert_eq!(series.index()[0].key, 0);
    assert_eq!(series.index()[0].label, "Item 1".to_string());
}

#[test]
fn try_update_refuses_another_type() {
    let mut series = DataSeries::<String>::new();
    series.push("Item 1".to_string(), 1i32);
    let descriptor = series.type_map()[&0].clone();
    assert_eq!(series.try_update::<f32>(0, 1.1), Err(UpdateError::TypeMismatch));
    assert_eq!(series.get::<i32>(0), Some(&1));
    assert_eq!(series.get::<f32>(0), None);
    assert_eq!(series.type_map()[&0], descriptor);
    assert_eq!(series.try_update::<i32>(0, 100), Ok(()));
    assert_eq!(series.get::<i32>(0), Some(&100));
    assert_eq!(series.type_map()[&0], descriptor);
    assert_eq!(series.try_update::<f32>(1, 1.1), Ok(()));
    assert_eq!(series.len(), 1);
    assert_eq!(series.get::<i32>(0), Some(&100));
}

#[test]
fn descriptors_follow_what_is_pushed_and_updated() {
    let mut series = DataSeries::<usize>::new();
    series.push_described(1, 5i32, "i32".to_string());
    series.push_described(2, "x", "&str".to_string());
    assert_eq!(series.type_map()[&0], "i32");
    assert_eq!(series.type_map()[&1], "&str");
    series.update_described(0, 6i32, "int".to_string());
    assert_eq!(series.type_map()[&0], "int");
    assert_eq!(series.type_map()[&1], "&str");
    assert_eq!(series.get::<i32>(0), Some(&6));
    series.update_described(9, 6i32, "none".to_string());
    assert_eq!(series.type_map().len(), 2);
    assert_eq!(series.type_map()[&0], "int");

    let mut plain = DataSeries::<usize>::new();
    plain.push(1, 5i32);
    plain.push(2, 6i32);
    plain.push(3, 6i64);
    assert_eq!(plain.type_map()[&0], plain.type_map()[&1]);
    assert_ne!(plain.type_map()[&0], plain.type_map()[&2]);
    assert!(!plain.type_map()[&0].is_empty());
}

#[test]
fn get_mut_writes_in_place() {
    let mut series = DataSeries::<usize>::new();
    series.push(1, vec![1, 2, 3]);
    series.push(2, 9u8);
    series.get_mut::<Vec<i32>>(0).unwrap().push(4);
    assert_eq!(series.get::<Vec<i32>>(0), Some(&vec![1, 2, 3, 4]));
    assert_eq!(series.get::<u8>(1), Some(&9));
    assert_eq!(series.len(), 2);
    assert_eq!(series.next_key_value(), 2);
}

#[test]
fn sort_orders_labels_and_keeps_keys_with_values() {
    let mut series = DataSeries::<usize>::new();
    series.push(4, 1);
    series.push(1, "test");
    series.push(3, [1.2, 3.4]);
    series.push(10, vec![1, 3, 4, 5, 12, 30, 12]);
    series.sort();
    assert_eq!(labels_of(&series), vec![1, 3, 4, 10]);
    assert_eq!(keys_of(&series), vec![1, 2, 0, 3]);
    assert_eq!(series.next_key_value(), 4);
    assert_eq!(series.data().len(), 4);
    series.sort();
    assert_eq!(labels_of(&series), vec![1, 3, 4, 10]);
    assert_eq!(keys_of(&series), vec![1, 2, 0, 3]);
}

#[test]
fn sort_keeps_equal_labels_in_their_order() {
    let mut series = DataSeries::<usize>::new();
    series.push(2, "first two");
    series.push(1, "first one");
    series.push(2, "second two");
    series.push(1, "second one");
    series.push(0, "zero");
    series.push(2, "third two");
    series.sort();
    assert_eq!(labels_of(&series), vec![0, 1, 1, 2, 2, 2]);
    assert_eq!(keys_of(&series), vec![4, 1, 3, 0, 2, 5]);
    assert_eq!(series.get::<&str>(1), Some(&"first one"));
    assert_eq!(series.get::<&str>(2), Some(&"second one"));
    assert_eq!(series.get::<&str>(5), Some(&"third two"));
}

#[test]
fn sort_by_text_labels() {
    let mut series = DataSeries::<String>::new();
    series.push("pear".to_string(), 1u8);
    series.push("apple".to_string(), 2u8);
    series.push("fig".to_string(), 3u8);
    series.sort();
    assert_eq!(series.get::<u8>(0), Some(&2));
    assert_eq!(series.get::<u8>(1), Some(&3));
    assert_eq!(series.get::<u8>(2), Some(&1));
}

#[test]
fn sort_by_label_on_a_plain_order() {
    let mut order: Vec<SeriesIndex<i32>> = Vec::new();
    for (key, label) in [5, -1, 3, -1, 0, 9, 3].into_iter().enumerate() {
        order.push(SeriesIndex::new(label, key));
    }
    sort_by_label(&mut order);
    let labels: Vec<i32> = order.iter().map(|entry| entry.label).collect();
    let keys: Vec<usize> = order.iter().map(|entry| entry.key).collect();
    assert_eq!(labels, vec![-1, -1, 0, 3, 3, 5, 9]);
    assert_eq!(keys, vec![1, 3, 4, 2, 6, 0, 5]);
}

#[test]
fn descending_positions_leave_the_order_alone() {
    let mut order: Vec<SeriesIndex<i32>> = Vec::new();
    for (key, label) in [5, -1, 3, -1, 0, 9, 3].into_iter().enumerate() {
        order.push(SeriesIndex::new(label, key));
    }
    assert_eq!(descending_positions_of(&order), vec![5, 0, 2, 6, 4, 1, 3]);
    let keys: Vec<usize> = order.iter().map(|entry| entry.key).collect();
    assert_eq!(keys, vec![0, 1, 2, 3, 4, 5, 6]);
    let none: Vec<SeriesIndex<i32>> = Vec::new();
    assert!(descending_positions_of(&none).is_empty());
}

#[test]
fn exceeds_is_strict() {
    assert!(exceeds(&2, &1));
    assert!(!exceeds(&1, &2));
    assert!(!exceeds(&1, &1));
    assert!(exceeds(&"b".to_string(), &"a".to_string()));
}

#[test]
fn compose_line_has_the_fixed_separators() {
    assert_eq!(compose_line("\"Item 1\"", "i32", "1"), "\"Item 1\"  i32: 1");
    assert_eq!(compose_line("", "", ""), "  : ");
    assert_eq!(compose_line("a", "", "b"), "a  : b");
}

#[test]
fn lines_show_label_descriptor_and_value() {
    let mut series = DataSeries::<String>::new();
    series.push_described("Item 1".to_string(), 1, "i32".to_string());
    series.push_described("Item 2".to_string(), "test", "&str".to_string());
    series.push_described("Item 3".to_string(), [1.2, 3.4], "[f64; 2]".to_string());
    series.push_described(
        "Item 4".to_string(),
        vec![1, 3, 4, 5, 12, 30, 12],
        "alloc::vec::Vec<i32>".to_string(),
    );
    assert_eq!(
        series.lines(),
        vec![
            "\"Item 1\"  i32: 1".to_string(),
            "\"Item 2\"  &str: \"test\"".to_string(),
            "\"Item 3\"  [f64; 2]: [1.2, 3.4]".to_string(),
            "\"Item 4\"  alloc::vec::Vec<i32>: [1, 3, 4, 5, 12, 30, 12]".to_string(),
        ]
    );
    assert_eq!(series.line(1), Some("\"Item 2\"  &str: \"test\"".to_string()));
    assert_eq!(series.line(4), None);
    assert_eq!(
        series.lines_reverse(),
        vec![
            "\"Item 4\"  alloc::vec::Vec<i32>: [1, 3, 4, 5, 12, 30, 12]".to_string(),
            "\"Item 3\"  [f64; 2]: [1.2, 3.4]".to_string(),
            "\"Item 2\"  &str: \"test\"".to_string(),
            "\"Item 1\"  i32: 1".to_string(),
        ]
    );
    assert_eq!(series.index()[0].label, "Item 1".to_string());
    assert_eq!(series.index()[3].label, "Item 4".to_string());
    assert_eq!(series.get::<Vec<i32>>(3).unwrap(), &vec![1, 3, 4, 5, 12, 30, 12]);
}

#[test]
fn lines_follow_a_change_in_place() {
    let mut series = DataSeries::<usize>::new();
    series.push_described(2, 1i32, "i32".to_string());
    series.push_described(7, 'x', "char".to_string());
    *series.get_mut::<i32>(0).unwrap() = 41;
    series.update_described(1, 'y', "char".to_string());
    assert_eq!(series.lines(), vec!["2  i32: 41".to_string(), "7  char: 'y'".to_string()]);
    assert_eq!(
        series.lines_reverse(),
        vec!["7  char: 'y'".to_string(), "2  i32: 41".to_string()]
    );
    assert_eq!(series.descending_positions(), vec![1, 0]);
}

#[test]
fn lines_reverse_keeps_equal_labels_in_their_order() {
    let mut series = DataSeries::<usize>::new();
    series.push_described(1, "a", "s".to_string());
    series.push_described(3, "b", "s".to_string());
    series.push_described(1, "c", "s".to_string());
    series.push_described(3, "d", "s".to_string());
    assert_eq!(series.descending_positions(), vec![1, 3, 0, 2]);
    assert_eq!(
        series.lines_reverse(),
        vec![
            "3  s: \"b\"".to_string(),
            "3  s: \"d\"".to_string(),
            "1  s: \"a\"".to_string(),
            "1  s: \"c\"".to_string(),
        ]
    );
    assert_eq!(keys_of(&series), vec![0, 1, 2, 3]);
}

#[test]
fn a_cell_gives_back_what_it_was_made_with() {
    let mut cell = ValueCell::new(String::from("kept"));
    assert_eq!(cell.downcast_ref::<String>(), Some(&String::from("kept")));
    assert_eq!(cell.downcast_ref::<&str>(), None);
    assert!(cell.downcast_mut::<i32>().is_none());
    cell.downcast_mut::<String>().unwrap().push_str(" and changed");
    assert_eq!(cell.downcast_ref::<String>(), Some(&String::from("kept and changed")));
    assert_eq!(cell.format_value(), "\"kept and changed\"");
}

#[test]
fn values_show_themselves() {
    assert_eq!(5i32.format_value(), "5");
    assert_eq!("test".format_value(), "\"test\"");
    assert_eq!([1.2, 3.4].format_value(), "[1.2, 3.4]");
    assert_eq!(vec![1, 3].format_value(), "[1, 3]");
    assert_eq!(ValueCell::new(Some(2u8)).format_value(), "Some(2)");
}

#[test]
fn series_index_keeps_label_and_key() {
    let entry = SeriesIndex::new("label".to_string(), 7);
    assert_eq!(entry.label, "label");
    assert_eq!(entry.key, 7);
    let copy = entry.clone();
    assert_eq!(copy.label, "label");
    assert_eq!(copy.key, 7);
}

#[test]
fn sort_in_direction_goes_both_ways() {
    let mut order: Vec<SeriesIndex<i32>> = Vec::new();
    for (key, label) in [5, -1, 3, -1, 0, 9, 3].into_iter().enumerate() {
        order.push(SeriesIndex::new(label, key));
    }
    sort_in_direction(&mut order, true);
    let labels: Vec<i32> = order.iter().map(|entry| entry.label).collect();
    let keys: Vec<usize> = order.iter().map(|entry| entry.key).collect();
    assert_eq!(labels, vec![9, 5, 3, 3, 0, -1, -1]);
    assert_eq!(keys, vec![5, 0, 2, 6, 4, 1, 3]);
    sort_in_direction(&mut order, false);
    let labels: Vec<i32> = order.iter().map(|entry| entry.label).collect();
    let keys: Vec<usize> = order.iter().map(|entry| entry.key).collect();
    assert_eq!(labels, vec![-1, -1, 0, 3, 3, 5, 9]);
    assert_eq!(keys, vec![1, 3, 4, 2, 6, 0, 5]);
    let mut one = vec![SeriesIndex::new(1, 0)];
    sort_in_direction(&mut one, true);
    assert_eq!(one[0].key, 0);
}

#[test]
fn parts_are_those_of_the_entry_asked_for() {
    let mut series = DataSeries::<String>::new();
    series.push_described("first".to_string(), 1i32, "i32".to_string());
    series.push_described("second".to_string(), "two", "&str".to_string());
    series.push_described("third".to_string(), 3u8, "u8".to_string());
    {
        let (label, descriptor, cell) = series.parts(1).unwrap();
        assert_eq!(label, "second");
        assert_eq!(descriptor, "&str");
        assert_eq!(cell.downcast_ref::<&str>(), Some(&"two"));
    }
    {
        let (label, descriptor, cell) = series.parts(2).unwrap();
        assert_eq!(label, "third");
        assert_eq!(descriptor, "u8");
        assert_eq!(cell.downcast_ref::<u8>(), Some(&3));
    }
    assert!(series.parts(3).is_none());
    assert!(series.remove(0).is_some());
    let (label, descriptor, cell) = series.parts(0).unwrap();
    assert_eq!(label, "second");
    assert_eq!(descriptor, "&str");
    assert_eq!(cell.format_value(), "\"two\"");
    assert_eq!(series.line(0), Some("\"second\"  &str: \"two\"".to_string()));
}

#[test]
fn the_nth_push_gets_key_n_minus_one() {
    let mut series = DataSeries::<String>::new();
    for n in 1..=20usize {
        if n % 3 == 0 {
            series.push(format!("label {}", n), n as u8);
        } else if n % 3 == 1 {
            series.push(format!("label {}", n), format!("value {}", n));
        } else {
            series.push(format!("label {}", n), [n as f64, 0.5]);
        }
        assert_eq!(series.index()[n - 1].key, n - 1);
        assert_eq!(series.next_key_value(), n);
    }
}
