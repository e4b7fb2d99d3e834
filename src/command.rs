use vstd::prelude::*;

verus! {

/// The operations a user can ask of the catalogue.
#[derive(PartialEq, Eq, Structural)]
pub enum Command {
    Create,
    Read,
    Update,
    Delete,
    List,
    Help,
}

/// The lower-case form of `s`, as Rust's Unicode case mapping gives it.
pub uninterp spec fn lower_of(s: Seq<char>) -> Seq<char>;

/// Relies on str::to_lowercase: the result depends on the characters alone.
#[verifier::external_body]
fn lowercase(s: &str) -> (r: String)
    ensures
        r@ == lower_of(s@),
{
    s.to_lowercase()
}

/// The command spelled exactly `name`, if any.
pub open spec fn command_named(name: Seq<char>) -> Option<Command> {
    if name == "create"@ {
        Some(Command::Create)
    } else if name == "read"@ {
        Some(Command::Read)
    } else if name == "update"@ {
        Some(Command::Update)
    } else if name == "delete"@ {
        Some(Command::Delete)
    } else if name == "list"@ {
        Some(Command::List)
    } else if name == "help"@ {
        Some(Command::Help)
    } else {
        None
    }
}

/// Whether two texts hold the same characters.
pub fn same_text(a: &str, b: &str) -> (r: bool)
    ensures
        r == (a@ == b@),
{
    let n = a.unicode_len();
    if n != b.unicode_len() {
        return false;
    }
    let mut i: usize = 0;
    while i < n
        invariant
            n == a@.len(),
            n == b@.len(),
            i <= n,
            a@.subrange(0, i as int) == b@.subrange(0, i as int),
        decreases n - i,
    {
        if a.get_char(i) != b.get_char(i) {
            return false;
        }
        proof {
            assert(a@.subrange(0, i + 1) =~= a@.subrange(0, i as int).push(a@[i as int]));
            assert(b@.subrange(0, i + 1) =~= b@.subrange(0, i as int).push(b@[i as int]));
        }
        i += 1;
    }
    proof {
        assert(a@ =~= a@.subrange(0, n as int));
        assert(b@ =~= b@.subrange(0, n as int));
    }
    true
}

impl Command {
    /// The command spelled exactly `name`; case is not folded here.
    pub fn from_lowercase(name: &str) -> (r: Option<Command>)
        ensures
            r == command_named(name@),
    {
        if same_text(name, "create") {
            Some(Command::Create)
        } else if same_text(name, "read") {
            Some(Command::Read)
        } else if same_text(name, "update") {
            Some(Command::Update)
        } else if same_text(name, "delete") {
            Some(Command::Delete)
        } else if same_text(name, "list") {
            Some(Command::List)
        } else if same_text(name, "help") {
            Some(Command::Help)
        } else {
            None
        }
    }

    /// The command that `input` names, in any letter case.
    pub fn from_str(input: &str) -> (r: Option<Command>)
        ensures
            r == command_named(lower_of(input@)),
    {
        let lower = lowercase(input);
        Command::from_lowercase(lower.as_str())
    }
}

} // verus!
