use kernel_core::fs::{sys_close, sys_fstat, sys_open, sys_read, sys_write, FdTable, OpenFile};

const READ_ONLY: OpenFile = OpenFile { readable: true, writable: false };
const WRITE_ONLY: OpenFile = OpenFile { readable: false, writable: true };
const READ_WRITE: OpenFile = OpenFile { readable: true, writable: true };

fn names(table: &FdTable) -> Vec<Option<&str>> {
    table.fd_name().iter().map(|n| n.as_deref()).collect()
}

#[test]
fn a_new_descriptor_table_is_empty() {
    let table = FdTable::new();
    assert!(table.fd_table().is_empty());
    assert!(table.fd_name().is_empty());
}

#[test]
fn open_gives_the_lowest_free_descriptor() {
    let mut table = FdTable::new();
    assert_eq!(sys_open(&mut table, Some(READ_ONLY), String::from("a")), 0);
    assert_eq!(sys_open(&mut table, Some(WRITE_ONLY), String::from("b")), 1);
    assert_eq!(sys_open(&mut table, Some(READ_WRITE), String::from("c")), 2);
    assert_eq!(*table.fd_table(), vec![Some(READ_ONLY), Some(WRITE_ONLY), Some(READ_WRITE)]);
    assert_eq!(names(&table), vec![Some("a"), Some("b"), Some("c")]);
    assert_eq!(sys_close(&mut table, 1), 0);
    assert_eq!(sys_close(&mut table, 0), 0);
    assert_eq!(*table.fd_table(), vec![None, None, Some(READ_WRITE)]);
    assert_eq!(names(&table), vec![None, None, Some("c")]);
    assert_eq!(sys_open(&mut table, Some(READ_WRITE), String::from("d")), 0);
    assert_eq!(sys_open(&mut table, Some(READ_ONLY), String::from("e")), 1);
    assert_eq!(sys_open(&mut table, Some(READ_ONLY), String::from("f")), 3);
    assert_eq!(names(&table), vec![Some("d"), Some("e"), Some("c"), Some("f")]);
}

#[test]
fn a_file_that_was_not_found_gets_no_descriptor() {
    let mut table = FdTable::new();
    assert_eq!(sys_open(&mut table, None, String::from("missing")), -1);
    assert!(table.fd_table().is_empty());
    assert!(table.fd_name().is_empty());
    assert_eq!(sys_open(&mut table, Some(READ_ONLY), String::from("a")), 0);
    assert_eq!(sys_open(&mut table, None, String::from("missing")), -1);
    assert_eq!(*table.fd_table(), vec![Some(READ_ONLY)]);
}

#[test]
fn close_fails_on_a_descriptor_that_is_not_open() {
    let mut table = FdTable::new();
    assert_eq!(sys_close(&mut table, 0), -1);
    assert_eq!(sys_open(&mut table, Some(READ_ONLY), String::from("a")), 0);
    assert_eq!(sys_close(&mut table, 1), -1);
    assert_eq!(sys_close(&mut table, usize::MAX), -1);
    assert_eq!(sys_close(&mut table, 0), 0);
    assert_eq!(sys_close(&mut table, 0), -1);
    assert_eq!(*table.fd_table(), vec![None]);
    assert_eq!(names(&table), vec![None]);
}

#[test]
fn read_and_write_need_an_open_file_of_the_right_kind() {
    let mut table = FdTable::new();
    assert_eq!(sys_read(&table, 0), -1);
    assert_eq!(sys_write(&table, 0), -1);
    assert_eq!(sys_open(&mut table, Some(READ_ONLY), String::from("r")), 0);
    assert_eq!(sys_open(&mut table, Some(WRITE_ONLY), String::from("w")), 1);
    assert_eq!(sys_open(&mut table, Some(READ_WRITE), String::from("rw")), 2);
    assert_eq!(
        sys_open(&mut table, Some(OpenFile { readable: false, writable: false }), String::new()),
        3
    );
    assert_eq!((sys_read(&table, 0), sys_write(&table, 0)), (0, -1));
    assert_eq!((sys_read(&table, 1), sys_write(&table, 1)), (-1, 0));
    assert_eq!((sys_read(&table, 2), sys_write(&table, 2)), (0, 0));
    assert_eq!((sys_read(&table, 3), sys_write(&table, 3)), (-1, -1));
    assert_eq!((sys_read(&table, 4), sys_write(&table, 4)), (-1, -1));
    assert_eq!(sys_close(&mut table, 2), 0);
    assert_eq!((sys_read(&table, 2), sys_write(&table, 2)), (-1, -1));
}

#[test]
fn fstat_names_the_path_of_an_open_file() {
    let mut table = FdTable::new();
    assert_eq!(sys_fstat(&table, 0), None);
    assert_eq!(sys_open(&mut table, Some(READ_ONLY), String::from("notes.txt")), 0);
    assert_eq!(sys_open(&mut table, Some(READ_ONLY), String::from("data")), 1);
    assert_eq!(sys_fstat(&table, 0), Some(String::from("notes.txt")));
    assert_eq!(sys_fstat(&table, 1), Some(String::from("data")));
    assert_eq!(sys_fstat(&table, 2), None);
    assert_eq!(sys_close(&mut table, 0), 0);
    assert_eq!(sys_fstat(&table, 0), None);
}
