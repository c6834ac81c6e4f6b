use libscylla::cli::{exit_code, Failure, Opts, SubCommand};

#[test]
fn exit_codes() {
    assert_eq!(exit_code(None), 0);
    assert_eq!(exit_code(Some(Failure::Config)), 1);
    assert_eq!(exit_code(Some(Failure::Store)), 2);
}

#[test]
fn subcommands_are_distinct() {
    let o = Opts { subcmd: SubCommand::Prepare };
    assert_ne!(o.subcmd, SubCommand::Start);
}
