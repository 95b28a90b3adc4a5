use micropython_build::args::{Args, ArgsReader, Parser};
use micropython_build::obj::{Obj, Qstr};

struct SmallInt;

impl<'b> Parser<'b> for SmallInt {
    type Output = isize;

    fn parse(&self, value: &'b Obj) -> Result<isize, ()> {
        value.small_int().ok_or(())
    }
}

fn kw(name: usize, value: isize) -> [Obj; 2] {
    [Obj::from_qstr(Qstr::from_raw(name)), Obj::from_small_int(value)]
}

#[test]
fn positional_arguments_are_counted_and_indexed() {
    let pos = [Obj::from_small_int(1), Obj::from_small_int(2)];
    let kws: Vec<Obj> = kw(10, 5).into_iter().chain(kw(11, 6)).collect();
    let args = Args::new(&pos, &kws);
    assert_eq!(args.n_arg(), 2);
    assert_eq!(args.n_kw(), 8);
    assert_eq!(args.nth_pos(1).and_then(|o| o.small_int()), Some(2));
    assert!(args.nth_pos(2).is_none());
}

#[test]
fn keyword_lookup_finds_the_first_match() {
    let pos: [Obj; 0] = [];
    let kws: Vec<Obj> = kw(10, 5).into_iter().chain(kw(11, 6)).chain(kw(11, 7)).collect();
    let args = Args::new(&pos, &kws);
    assert_eq!(args.find_keyword(Qstr::from_raw(11)).and_then(|o| o.small_int()), Some(6));
    assert_eq!(args.find_keyword(Qstr::from_raw(10)).and_then(|o| o.small_int()), Some(5));
    assert!(args.find_keyword(Qstr::from_raw(12)).is_none());
}

#[test]
fn keyword_lookup_ignores_an_unpaired_last_object() {
    let pos: [Obj; 0] = [];
    let kws = [Obj::from_qstr(Qstr::from_raw(3))];
    let args = Args::new(&pos, &kws);
    assert!(args.find_keyword(Qstr::from_raw(3)).is_none());
}

#[test]
fn reader_moves_on_only_after_a_successful_parse() {
    let pos = [Obj::from_small_int(4), Obj::from_immediate(1), Obj::from_small_int(-3)];
    let kws: Vec<Obj> = kw(20, 9).to_vec();
    let mut reader = ArgsReader::new(Args::new(&pos, &kws));
    assert_eq!(reader.next_positional_with(SmallInt), Ok(4));
    assert_eq!(reader.next_positional_with(SmallInt), Err(()));
    assert_eq!(reader.next_positional_with(SmallInt), Err(()));
    assert_eq!(reader.current_positional().map(|o| o.into_raw()), Some(Obj::from_immediate(1).into_raw()));
    assert_eq!(reader.find_keyword_with(Qstr::from_raw(20), SmallInt), Ok(9));
    assert_eq!(reader.find_keyword_with(Qstr::from_raw(21), SmallInt), Err(()));
}

#[test]
fn reader_fails_when_no_positional_is_left() {
    let pos = [Obj::from_small_int(8)];
    let kws: [Obj; 0] = [];
    let mut reader = ArgsReader::new(Args::new(&pos, &kws));
    assert_eq!(reader.next_positional_with(SmallInt), Ok(8));
    assert_eq!(reader.next_positional_with(SmallInt), Err(()));
    assert!(reader.current_positional().is_none());
}
