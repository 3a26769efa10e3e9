use std::cell::Cell;
use std::rc::Rc;

use pinentry_op::pinentry::{ProcessInfo, Secret, SecretError, Session, FLAVOR, HELP};

const VERSION: &str = "0.1.0";
const PID: u32 = 4242;

#[test]
fn announce() {
    with_session()
        .test_announce("OK pinentry-op ready\n")
    ;
}

#[test]
fn pinentry_bye() {
    with_session()
        .test_handle_ok("Bye", false, "OK closing connection\n")
    ;
}

#[test]
fn pinentry_getinfo() {
    with_session()
        .test_handle_ok("GetInfo",         true, "OK\n")
        .test_handle_ok("GetInfo Other",   true, "OK\n")
        .test_handle_ok("GetInfo Version", true, format!("D {}\nOK\n", VERSION))
        .test_handle_ok("GetInfo Flavor" , true, format!("D {}\nOK\n", FLAVOR))
        .test_handle_ok("GetInfo Pid",     true, format!("D {}\nOK\n", PID))
        .test_handle_ok("GetInfo TtyInfo", true, "D - - - - 0/0 -\nOK\n")
    ;
}

#[test]
fn getpin_ok() {
    with_session()
        .set_secret(Some(Ok(())))
        .test_handle_ok("GETPIN", true, "D test-pin\nOK\n")
    ;
}

#[test]
fn getpin_ok_cached() {
    with_session()
        .set_cache_ok(true)
        .set_secret(Some(Ok(())))
        .test_handle_ok("GETPIN", true, "S PASSWORD_FROM_CACHE\nD test-pin\nOK\n")
    ;
}

#[test]
fn getpin_err() {
    with_session()
        .set_secret(Some(Err(())))
        .test_handle_err("GETPIN")
    ;
}

#[test]
fn pinentry_help() {
    with_session()
        .test_handle_ok("Help", true, HELP)
    ;
}

#[test]
fn pinentry_option_cache_ok() {
    with_session()
        .set_cache_ok(false)
        .test_handle_ok("Option Allow-External-Password-Cache", true, "OK\n")
        .assert_cache_ok(true)
    ;
}

#[test]
fn pinentry_option_other() {
    with_session()
        .set_cache_ok(false)
        .test_handle_ok("Option Other", true, "OK\n")
        .assert_cache_ok(false)
    ;
}

#[test]
fn pinentry_reset() {
    with_session()
        .set_cache_ok(true)
        .test_handle_ok("Reset", true, "OK\n")
        .assert_cache_ok(false)
    ;
}

#[test]
fn pinentry_other() {
    with_session()
        .test_handle_ok("Other", true, "OK\n")
    ;
}

#[test]
fn help_text_lists_every_command() {
    assert_eq!(
        HELP,
        "# BYE\n\
         # GETINFO { flavor | version | pid | ttyinfo }\n\
         # GETPIN\n\
         # HELP\n\
         # OPTION <name> [ [=] <value> ]\n\
         # RESET\n\
         OK\n"
    );
}

type Canned = Option<Result<(), ()>>;

#[derive(Debug)]
struct TestSecret(Rc<Cell<Canned>>);

impl Secret for TestSecret {
    fn read(&self) -> Result<String, SecretError> {
        match self.0.get().unwrap() {
            Ok(_) => Ok("test-pin".to_string()),
            Err(_) => Err(SecretError::Failed),
        }
    }
}

struct Harness {
    session: Session<TestSecret>,
    secret: Rc<Cell<Canned>>,
}

fn with_session() -> Harness {
    let secret = Rc::new(Cell::new(None));
    let info = ProcessInfo { version: VERSION.to_string(), pid: PID };
    Harness { session: Session::new(TestSecret(secret.clone()), info), secret }
}

impl Harness {
    fn set_cache_ok(&mut self, v: bool) -> &mut Self {
        let line = if v { "OPTION allow-external-password-cache" } else { "RESET" };
        self.session.handle(line).unwrap();
        self.session.take_output();
        assert_eq!(self.session.cache_ok(), v);
        self
    }

    fn set_secret(&mut self, v: Canned) -> &mut Self {
        self.secret.set(v);
        self
    }

    fn test_announce<O: AsRef<str>>(&mut self, output: O) -> &mut Self {
        self.session.announce();
        self.assert_output(output)
    }

    fn test_handle_ok<O: AsRef<str>>(&mut self, input: &str, result: bool, output: O) -> &mut Self {
        let res = self.session.handle(input).unwrap();
        assert_eq!(res, result);
        self.assert_output(output)
    }

    fn test_handle_err(&mut self, input: &str) -> &mut Self {
        assert!(self.session.handle(input).is_err());
        self.assert_output("")
    }

    fn assert_output<O: AsRef<str>>(&mut self, exp: O) -> &mut Self {
        assert_eq!(self.session.output(), exp.as_ref());
        self.session.take_output();
        self
    }

    fn assert_cache_ok(&mut self, exp: bool) -> &mut Self {
        assert_eq!(self.session.cache_ok(), exp);
        self
    }
}
