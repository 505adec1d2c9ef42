use as_topology::naming::year_of_file_name;

#[test]
fn year_from_dump_file_name() {
    assert_eq!(year_of_file_name(b"bview.20230115.0000.gz"), Some(2023));
    assert_eq!(year_of_file_name(b"rib.19991231"), Some(1999));
    assert_eq!(year_of_file_name(b"bview.+20050101.gz"), Some(2005));
}

#[test]
fn file_names_without_a_date_numeral() {
    assert_eq!(year_of_file_name(b"bview"), None);
    assert_eq!(year_of_file_name(b"bview..gz"), None);
    assert_eq!(year_of_file_name(b"bview.2023a115.gz"), None);
    assert_eq!(year_of_file_name(b"bview.+.gz"), None);
    assert_eq!(year_of_file_name(b"bview.99999999999999999999999.gz"), None);
    assert_eq!(year_of_file_name(b"bview.18446744073709551615"), Some(1844674407370955));
}
