use lat::cli::{
    Address, Command, DEFAULT_HTTP_ADDR, Transport, USAGE, normalize_address, parse_allowed_hosts,
    parse_args,
};

/// What the command line asks for, as far as it is read without resolving an
/// address: an error when the first argument is unknown, when an argument is
/// left over, or when a given address is blank.
fn parse(args: &[&str]) -> Result<Command, String> {
    let args: Vec<String> = args.iter().map(|arg| (*arg).to_string()).collect();
    let parsed = parse_args(&args).map_err(|e| format!("unknown argument '{}'", e.argument))?;
    if let Command::Serve(Transport::Http(Address::Given(raw))) = &parsed.command {
        if normalize_address(raw).is_none() {
            return Err("empty address; expected host:port".to_owned());
        }
    }
    if let Some(extra) = parsed.unexpected {
        return Err(format!("unexpected argument '{extra}'"));
    }
    Ok(parsed.command)
}

fn given_address(command: Command) -> String {
    let Command::Serve(Transport::Http(Address::Given(raw))) = command else {
        panic!("expected an HTTP transport");
    };
    normalize_address(&raw).expect("a non-blank address")
}

#[test]
fn no_arguments_serves_over_stdio() {
    assert!(matches!(
        parse(&[]).unwrap(),
        Command::Serve(Transport::Stdio)
    ));
}

#[test]
fn http_with_address_uses_that_address() {
    let addr = given_address(parse(&["--http", "127.0.0.1:9123"]).unwrap());
    assert_eq!(addr, "127.0.0.1:9123");
}

#[test]
fn http_accepts_the_equals_form() {
    let addr = given_address(parse(&["--http=127.0.0.1:9124"]).unwrap());
    assert_eq!(addr, "127.0.0.1:9124");
}

#[test]
fn http_without_an_address_falls_back_to_the_default() {
    assert!(matches!(
        parse(&["--http"]).unwrap(),
        Command::Serve(Transport::Http(Address::Default))
    ));
}

#[test]
fn unknown_argument_is_rejected() {
    assert!(parse(&["--nope"]).is_err());
    let args = vec!["--nope".to_owned()];
    let error = parse_args(&args).unwrap_err();
    assert_eq!(error.argument, "--nope");
}

#[test]
fn trailing_argument_is_rejected() {
    assert!(parse(&["--http", "127.0.0.1:9125", "extra"]).is_err());
    let args: Vec<String> = ["--http", "127.0.0.1:9125", "extra"]
        .iter()
        .map(|a| (*a).to_owned())
        .collect();
    assert_eq!(parse_args(&args).unwrap().unexpected.as_deref(), Some("extra"));
}

#[test]
fn help_and_version_are_recognised_in_both_spellings() {
    assert!(matches!(parse(&["--help"]).unwrap(), Command::Help));
    assert!(matches!(parse(&["-h"]).unwrap(), Command::Help));
    assert!(matches!(parse(&["--version"]).unwrap(), Command::Version));
    assert!(matches!(parse(&["-V"]).unwrap(), Command::Version));
}

#[test]
fn the_usage_text_lists_every_accepted_flag_and_variable() {
    for token in [
        "--http",
        "--help",
        "-h",
        "--version",
        "-V",
        "LAT_DB_PATH",
        "LAT_HTTP_ADDR",
        "LAT_HTTP_ALLOWED_HOSTS",
        "RUST_LOG",
    ] {
        assert!(USAGE.contains(token), "usage does not mention {token}");
    }
}

#[test]
fn http_does_not_swallow_a_following_flag() {
    assert!(parse(&["--http", "--help"]).is_err());
}

#[test]
fn an_empty_address_is_rejected() {
    assert!(parse(&["--http="]).is_err());
    assert!(parse(&["--http", "   "]).is_err());
}

#[test]
fn an_address_may_be_padded_with_whitespace() {
    let addr = given_address(parse(&["--http", " 127.0.0.1:9126 "]).unwrap());
    assert_eq!(addr, "127.0.0.1:9126");
}

#[test]
fn the_default_address_is_written_without_padding() {
    assert_eq!(
        normalize_address(DEFAULT_HTTP_ADDR).as_deref(),
        Some("127.0.0.1:8000")
    );
}

#[test]
fn allowed_hosts_are_split_trimmed_and_cleaned() {
    assert_eq!(
        parse_allowed_hosts("lat.internal, box.local"),
        vec!["lat.internal", "box.local"]
    );
    assert_eq!(parse_allowed_hosts("  spaced  "), vec!["spaced"]);
}

#[test]
fn an_empty_allowed_hosts_list_widens_nothing() {
    assert!(parse_allowed_hosts("").is_empty());
    assert!(parse_allowed_hosts(",").is_empty());
    assert!(parse_allowed_hosts("  ,  , ").is_empty());
}

#[test]
fn unicode_whitespace_is_trimmed_from_hosts() {
    assert_eq!(
        parse_allowed_hosts("\u{3000}a.example\u{00a0},\tb.example\n"),
        vec!["a.example", "b.example"]
    );
}

#[test]
fn hosts_written_back_as_a_list_read_back_the_same() {
    let hosts = parse_allowed_hosts(" a.example ,, b.example,\tc.example ");
    assert_eq!(hosts, vec!["a.example", "b.example", "c.example"]);
    assert!(hosts.iter().all(|host| !host.contains(',')));
    assert_eq!(parse_allowed_hosts(&hosts.join(",")), hosts);
}

#[test]
fn the_spaced_and_the_joined_http_forms_agree() {
    for addr in ["127.0.0.1:9124", "localhost:1", "x", ""] {
        for rest in [vec![], vec!["extra".to_owned()]] {
            let mut spaced = vec!["--http".to_owned(), addr.to_owned()];
            spaced.extend(rest.clone());
            let mut joined = vec![format!("--http={addr}")];
            joined.extend(rest.clone());
            let a = parse_args(&spaced).unwrap();
            let b = parse_args(&joined).unwrap();
            match (&a.command, &b.command) {
                (
                    Command::Serve(Transport::Http(Address::Given(x))),
                    Command::Serve(Transport::Http(Address::Given(y))),
                ) => {
                    assert_eq!(x, addr);
                    assert_eq!(y, addr);
                }
                _ => panic!("both forms serve over HTTP at the given address"),
            }
            assert_eq!(a.unexpected, rest.first().cloned());
            assert_eq!(b.unexpected, rest.first().cloned());
        }
    }
}
