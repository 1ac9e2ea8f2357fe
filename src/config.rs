use vstd::prelude::*;

verus! {

/// Settings chosen once and threaded through the program.
#[derive(Clone, Copy, Debug, PartialEq, Eq, Structural)]
pub struct Config {
    /// Whether the task store is kept encrypted.
    pub encryption: bool,
}

impl Config {
    /// The settings of a first run: no encryption.
    pub fn new() -> (r: Config)
        ensures
            !r.encryption,
    {
        Config { encryption: false }
    }
}

impl Default for Config {
    fn default() -> (r: Config)
        ensures
            !r.encryption,
    {
        Config::new()
    }
}

/// The command-line flags.
#[derive(Clone, Copy, Debug, PartialEq, Eq, Structural)]
pub struct Args {
    /// Delete all tasks and make a new key, for a forgotten key.
    pub reset: bool,
    /// Make a new key.
    pub generate_key: bool,
}

/// What the program does at startup before it opens the store.
#[derive(Clone, Copy, Debug, PartialEq, Eq, Structural)]
pub enum StartupAction {
    /// Delete the store file (and a stored password).
    ResetStore,
    /// Generate and write a new key file.
    GenerateKey,
}

/// The startup actions the flags ask for, in order: a reset deletes the
/// store and makes a new key; key generation makes a new key.
pub open spec fn startup_actions(args: Args) -> Seq<StartupAction> {
    (if args.reset {
        seq![StartupAction::ResetStore, StartupAction::GenerateKey]
    } else {
        Seq::empty()
    }) + (if args.generate_key {
        seq![StartupAction::GenerateKey]
    } else {
        Seq::empty()
    })
}

/// The startup actions for the parsed flags.
pub fn handle_arguments(args: &Args) -> (r: Vec<StartupAction>)
    ensures
        r@ == startup_actions(*args),
{
    let mut actions: Vec<StartupAction> = Vec::new();
    if args.reset {
        actions.push(StartupAction::ResetStore);
        actions.push(StartupAction::GenerateKey);
    }
    if args.generate_key {
        actions.push(StartupAction::GenerateKey);
    }
    assert(actions@ =~= startup_actions(*args));
    actions
}

} // verus!
