use rolling_buffer::RollingBuffer;
use rolling_buffer::ValuesIter;

fn collect_iter<T: Copy + Default>(mut iter: ValuesIter<'_, T>) -> Vec<T> {
    let mut out: Vec<T> = Vec::new();
    while let Some(v) = iter.next() {
        out.push(v);
    }
    out
}

#[test]
fn test_values_and_values_iter_equal() {
    let mut buff = RollingBuffer::new(20);
    for num in 0..40 {
        buff.add(num);
        let vec_out = buff.values();
        let iter_out: Vec<i32> = collect_iter(buff.values_iter());
        println!("len: {} - {:?}", buff.len(), vec_out);
        println!("len: {} - {:?}", buff.len(), iter_out);
        assert_eq!(vec_out, iter_out);
    }
}

#[test]
fn test_get_overflow() {
    let mut buff = RollingBuffer::new(20);
    for num in 0..40 {
        buff.add(num);
    }
    assert_eq!(*buff.get(1000), 39);
}

#[test]
fn test_char_vec() {
    let alphabet = "abcdefghijklmnopqrstuvwxyzABCDEFGHIJKLMNOPQRSTUVWXYZ";
    let mut buff = RollingBuffer::new(20);
    for num in 0..40 {
        let num = alphabet.chars().nth(num).unwrap_or('Z');
        buff.add(num);
        let vec_out = buff.values();
        let iter_out: Vec<char> = collect_iter(buff.values_iter());
        assert_eq!(vec_out, iter_out);
    }
}

#[derive(Default, Clone, Copy, PartialEq, Debug)]
struct Data {
    x: f32,
    y: f32,
}

#[test]
fn test_struct() {
    let mut buff = RollingBuffer::new(20);
    for num in 0..40_u8 {
        let num: f32 = num.into();
        let point = Data {
            x: num,
            y: num * 5.3,
        };
        buff.add(point);
        let vec_out = buff.values();
        let iter_out: Vec<Data> = collect_iter(buff.values_iter());
        assert_eq!(vec_out, iter_out);
    }
}

#[test]
fn fresh_buffer_is_empty() {
    for capacity in [1, 2, 20, 1000] {
        let buff: RollingBuffer<i32> = RollingBuffer::new(capacity);
        assert_eq!(buff.len(), 0);
        assert!(!buff.is_full());
        assert_eq!(buff.values(), Vec::<i32>::new());
        assert_eq!(collect_iter(buff.values_iter()), Vec::<i32>::new());
    }
}

#[test]
fn full_window_scenario() {
    let mut buff = RollingBuffer::new(20);
    for num in 0..40 {
        buff.add(num);
    }
    assert_eq!(buff.len(), 20);
    assert!(buff.is_full());
    let expected: Vec<i32> = (20..40).collect();
    assert_eq!(buff.values(), expected);
    assert_eq!(*buff.get(0), 20);
    assert_eq!(*buff.get(19), 39);
    assert_eq!(*buff.get(1000), 39);
}

#[test]
fn partial_fill_scenario() {
    let mut buff = RollingBuffer::new(20);
    for num in 0..5 {
        buff.add(num);
    }
    assert_eq!(buff.len(), 5);
    assert!(!buff.is_full());
    assert_eq!(buff.values(), vec![0, 1, 2, 3, 4]);
}

#[test]
fn overwrite_keeps_most_recent_window() {
    let mut buff = RollingBuffer::new(3);
    for num in 1..=7 {
        buff.add(num);
    }
    assert_eq!(buff.values(), vec![5, 6, 7]);
    assert_eq!(*buff.get(0), 5);
    assert_eq!(*buff.get(1), 6);
    assert_eq!(*buff.get(2), 7);
}

#[test]
fn clamped_get_on_full_buffer_matches_last_position() {
    let mut buff = RollingBuffer::new(4);
    for num in 0..9 {
        buff.add(num * 11);
    }
    let last = *buff.get(3);
    assert_eq!(*buff.get(4), last);
    assert_eq!(*buff.get(5), last);
    assert_eq!(*buff.get(400), last);
}

#[test]
fn clamped_get_on_partial_buffer_reads_unwritten_slot() {
    let mut buff = RollingBuffer::new(3);
    buff.add(7);
    assert_eq!(buff.len(), 1);
    assert_eq!(*buff.get(0), 7);
    assert_eq!(*buff.get(5), 0);
}

#[test]
fn capacity_one_keeps_only_newest() {
    let mut buff = RollingBuffer::new(1);
    assert!(!buff.is_full());
    buff.add('a');
    buff.add('b');
    buff.add('c');
    assert!(buff.is_full());
    assert_eq!(buff.len(), 1);
    assert_eq!(buff.values(), vec!['c']);
    assert_eq!(*buff.get(0), 'c');
    assert_eq!(*buff.get(9), 'c');
}

#[test]
fn add_reports_when_buffer_becomes_full() {
    let mut buff = RollingBuffer::new(3);
    assert!(!buff.add(1));
    assert!(!buff.add(2));
    assert!(buff.add(3));
    assert!(buff.add(4));
}

#[test]
fn iterator_is_single_pass_and_exhausts() {
    let mut buff = RollingBuffer::new(2);
    buff.add(8_u64);
    buff.add(9_u64);
    let mut iter = buff.values_iter();
    assert_eq!(iter.next(), Some(8));
    assert_eq!(iter.next(), Some(9));
    assert_eq!(iter.next(), None);
    assert_eq!(iter.next(), None);
}
