use rupl::command::{Command, Handler, RegistrationError};
use rupl::error::ReplError;
use rupl::parameters::Parameters;
use rupl::parse;

struct Tag(&'static str);

impl Handler for Tag {
    type Ctx = u32;

    fn run(&self, _args: &Parameters, ctx: &mut u32) -> Result<Option<String>, ReplError> {
        *ctx += 1;
        Ok(Some(self.0.to_string()))
    }
}

fn service_tree() -> Vec<Command<Tag>> {
    let mut dns = Command::new("dns".to_string(), Tag("dns"));
    dns.with_subcommand(Command::new("status".to_string(), Tag("status")))
        .unwrap();
    let mut service = Command::new("service".to_string(), Tag("service"));
    service.with_subcommand(dns).unwrap();
    vec![service]
}

#[test]
fn resolver_walks_to_deepest_node() {
    let commands = service_tree();
    let (node, tail) = parse("service dns status", &commands);
    assert_eq!(node.unwrap().name().as_str(), "status");
    assert!(tail.is_empty());
}

#[test]
fn resolver_stops_at_unmatched_token() {
    let commands = service_tree();
    let (node, tail) = parse("service dns bogus", &commands);
    assert_eq!(node.unwrap().name().as_str(), "dns");
    assert_eq!(tail, vec!["bogus".to_string()]);
}

#[test]
fn resolver_yields_no_node_for_unknown_first_token() {
    let commands = service_tree();
    let (node, tail) = parse("bogus", &commands);
    assert!(node.is_none());
    assert_eq!(tail, vec!["bogus".to_string()]);
}

#[test]
fn resolver_keeps_argument_tail() {
    let commands = service_tree();
    let (node, tail) = parse("service dns --port 53 --mode udp", &commands);
    assert_eq!(node.unwrap().name().as_str(), "dns");
    assert_eq!(
        tail,
        vec![
            "--port".to_string(),
            "53".to_string(),
            "--mode".to_string(),
            "udp".to_string()
        ]
    );
}

#[test]
fn subcommand_on_parameter_leaf_is_rejected() {
    let mut cmd = Command::new("c".to_string(), Tag("c"));
    cmd.with_arg("p".to_string(), false).unwrap();

    let res = cmd.with_subcommand(Command::new("s".to_string(), Tag("s")));
    assert_eq!(res, Err(RegistrationError::IllegalSubcommandError));

    // the command is unmodified: still a leaf with its one parameter
    assert_eq!(cmd.args().len(), 1);
    assert_eq!(cmd.args()[0].name().as_str(), "p");
    assert!(cmd.list_subcommands().is_empty());
}

#[test]
fn parameter_on_branch_is_rejected() {
    let mut cmd = Command::new("c".to_string(), Tag("c"));
    cmd.with_subcommand(Command::new("s".to_string(), Tag("s")))
        .unwrap();

    let res = cmd.with_arg("p".to_string(), false);
    assert_eq!(res, Err(RegistrationError::IllegalParameterError));

    // the command is unmodified: still a branch with its one subcommand
    let subs = cmd.list_subcommands();
    assert_eq!(subs.len(), 1);
    assert_eq!(subs[0].as_str(), "s");
}

#[test]
fn with_subcommand_replaces_namesake() {
    let mut cmd = Command::new("c".to_string(), Tag("c"));
    cmd.with_subcommand(Command::new("s".to_string(), Tag("one")))
        .unwrap();
    cmd.with_subcommand(Command::new("t".to_string(), Tag("two")))
        .unwrap();
    cmd.with_subcommand(Command::new("s".to_string(), Tag("three")))
        .unwrap();

    let subs = cmd.list_subcommands();
    assert_eq!(subs.len(), 2);
    assert_eq!(subs[0].as_str(), "s");
    assert_eq!(subs[1].as_str(), "t");
}

#[test]
fn command_run_invokes_handler() {
    let cmd = Command::new("hello".to_string(), Tag("hello"));
    // an empty line binds zero tokens to zero declared parameters
    let bound = Parameters::new("", &vec![]).unwrap();
    let mut counter = 0u32;
    let out = cmd.run(&bound, &mut counter).unwrap();
    assert_eq!(out, Some("hello".to_string()));
    assert_eq!(counter, 1);
}

#[test]
fn command_help_text_is_attached() {
    let mut cmd = Command::new("c".to_string(), Tag("c"));
    cmd.with_help("does things".to_string());
    assert_eq!(cmd.name().as_str(), "c");
}
