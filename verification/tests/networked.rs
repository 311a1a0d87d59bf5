use mergeq::error::ErrorKind;
use mergeq::networked::Postgres;
use mergeq::retry::RetryPolicy;

#[test]
fn a_connection_string_of_pairs_makes_a_backend() {
    let policy = RetryPolicy::new(4, 10, 80).unwrap();
    let backend = Postgres::new("host=db.example user=bot dbname=queue port=5433", policy).unwrap();
    assert_eq!(backend.params().get_user(), Some("bot"));
    assert_eq!(backend.params().get_dbname(), Some("queue"));
    assert_eq!(backend.params().get_ports(), &[5433]);
    assert_eq!(backend.policy().max_attempts(), 4);
    assert_eq!(backend.policy().delay_ms(4), 80);
}

#[test]
fn a_connection_url_makes_a_backend() {
    let policy = RetryPolicy::new(1, 1, 1).unwrap();
    let backend = Postgres::new("postgresql://bot@db.example/queue", policy).unwrap();
    assert_eq!(backend.params().get_user(), Some("bot"));
    assert_eq!(backend.params().get_dbname(), Some("queue"));
}

#[test]
fn a_connection_string_that_does_not_parse_is_an_initialization_error() {
    let policy = RetryPolicy::new(1, 1, 1).unwrap();
    assert_eq!(Postgres::new("host", policy).err(), Some(ErrorKind::Initialization));
    assert_eq!(Postgres::new("port=high", policy).err(), Some(ErrorKind::Initialization));
    assert_eq!(Postgres::new("no_such_key=1", policy).err(), Some(ErrorKind::Initialization));
}
