//! The commands that are typed into the chat, and how a line is read as one.

use vstd::prelude::*;
use vstd::string::StringExecFns;
use crate::entity::{is_sanitized, parse_entity, Entity, EntityError, EntityView, Role};
use crate::error::LoungeError;
use crate::keys::openssh_decoded;
use crate::lookup::{parse_lookup, EntityLookup, LookupView};
use crate::text::{
    find, from_chars, lemma_find_unique, split, split_text, str_eq, to_chars, views, Separator,
};

verus! {

/// A command of the chat.
#[derive(Debug)]
pub enum Command {
    /// `/add <line>`: authorize the entity that the line names.
    Add(Entity),
    /// `/rename <from> <to>`: give the entity named `from` the name `to`.
    Rename { from: String, to: String },
    /// `/commit`: write the keychain to the authorization file.
    Commit,
    /// `/info <lookup>`: show what is known of an entity.
    Info(EntityLookup),
    /// `/ban <lookup>`: withdraw an entity's key and close its sessions.
    Ban(EntityLookup),
    /// `/reload`: load the authorization file again.
    Reload,
}

/// The mathematical content of a [`Command`].
pub enum CommandView {
    Add(EntityView),
    Rename { from: Seq<char>, to: Seq<char> },
    Commit,
    Info(LookupView),
    Ban(LookupView),
    Reload,
}

impl View for Command {
    type V = CommandView;

    open spec fn view(&self) -> CommandView {
        match self {
            Command::Add(entity) => CommandView::Add(entity@),
            Command::Rename { from, to } => CommandView::Rename { from: from@, to: to@ },
            Command::Commit => CommandView::Commit,
            Command::Info(lookup) => CommandView::Info(lookup@),
            Command::Ban(lookup) => CommandView::Ban(lookup@),
            Command::Reload => CommandView::Reload,
        }
    }
}

impl CommandView {
    /// The entity that `Add` brings has a sanitized name.
    pub open spec fn wf(self) -> bool {
        self matches CommandView::Add(entity) ==> is_sanitized(entity.persona.name)
    }
}

/// What a line of input is.
pub enum Parsed {
    /// Not a command: a line of chat.
    Chat,
    /// This command.
    Command(CommandView),
    /// `/info` or `/ban` with an argument that refers to nothing; holds the
    /// argument.
    BadLookup(Seq<char>),
    /// `/add` with a line that names no entity; holds the line.
    BadEntity(Seq<char>),
    /// A command for admins, from somebody who is none.
    NotAnAdmin,
    /// A command word with the wrong number of arguments.
    Malformed,
}

/// Whether `word` is a command that only admins may issue.
pub open spec fn is_admin_word(word: Seq<char>) -> bool {
    ||| word == "/add"@
    ||| word == "/rename"@
    ||| word == "/ban"@
    ||| word == "/commit"@
    ||| word == "/reload"@
}

/// Whether `word` is the first word of any command.
pub open spec fn is_command_word(word: Seq<char>) -> bool {
    word == "/info"@ || is_admin_word(word)
}

/// What stands behind the first word of `text`: the text behind its first
/// whitespace character, or nothing if it has none.
pub open spec fn argument_of(text: Seq<char>) -> Seq<char> {
    let i = find(text, Separator::Whitespace);
    if i < text.len() {
        text.skip(i + 1)
    } else {
        Seq::empty()
    }
}

/// What a line is, given its words and what stands behind its first word,
/// for an issuer who is or is not an admin.  The first rule that applies
/// decides:
///
/// 1. `/info` with one argument is `Info`;
/// 2. a command for admins from anybody else is refused;
/// 3. `/add` takes everything behind it as a line of the authorization
///    file; `/ban` takes one argument, `/commit` and `/reload` none,
///    `/rename` two;
/// 4. a command word with any other number of arguments is malformed;
/// 5. everything else is chat.
pub open spec fn parse_tokens(tokens: Seq<Seq<char>>, argument: Seq<char>, admin: bool) -> Parsed {
    if tokens.len() == 0 {
        Parsed::Chat
    } else if tokens[0] == "/info"@ && tokens.len() == 2 {
        match parse_lookup(tokens[1]) {
            Some(lookup) => Parsed::Command(CommandView::Info(lookup)),
            None => Parsed::BadLookup(tokens[1]),
        }
    } else if is_admin_word(tokens[0]) && !admin {
        Parsed::NotAnAdmin
    } else if tokens[0] == "/add"@ && tokens.len() >= 2 {
        match parse_entity(argument) {
            Some(entity) => Parsed::Command(CommandView::Add(entity)),
            None => Parsed::BadEntity(argument),
        }
    } else if tokens[0] == "/ban"@ && tokens.len() == 2 {
        match parse_lookup(tokens[1]) {
            Some(lookup) => Parsed::Command(CommandView::Ban(lookup)),
            None => Parsed::BadLookup(tokens[1]),
        }
    } else if tokens[0] == "/commit"@ && tokens.len() == 1 {
        Parsed::Command(CommandView::Commit)
    } else if tokens[0] == "/reload"@ && tokens.len() == 1 {
        Parsed::Command(CommandView::Reload)
    } else if tokens[0] == "/rename"@ && tokens.len() == 3 {
        Parsed::Command(CommandView::Rename { from: tokens[1], to: tokens[2] })
    } else if is_command_word(tokens[0]) {
        Parsed::Malformed
    } else {
        Parsed::Chat
    }
}

/// What a line of input is: its words are the pieces between whitespace
/// characters, each of which ends a word.
pub open spec fn parse_command(text: Seq<char>, admin: bool) -> Parsed {
    parse_tokens(split(text, Separator::Whitespace), argument_of(text), admin)
}

/// Whether `res` is the answer that `parsed` calls for, given the line and
/// the issuer's name.
pub open spec fn answers(
    res: Result<Option<Command>, LoungeError>,
    parsed: Parsed,
    text: Seq<char>,
    name: Seq<char>,
) -> bool {
    match parsed {
        Parsed::Chat => res == Ok::<Option<Command>, LoungeError>(None),
        Parsed::Command(command) => res matches Ok(Some(c)) && c@ == command && c@.wf(),
        Parsed::BadLookup(argument) => res matches Err(LoungeError::EntityLookup(t)) && t@
            == argument,
        Parsed::BadEntity(argument) => {
            &&& res matches Err(LoungeError::EntityParsing(inner))
            &&& (inner is PublicKeyParsing <==> openssh_decoded(argument) is None)
            &&& (inner matches EntityError::InvalidRole(comment) ==> openssh_decoded(
                argument,
            ) matches Some((_, c)) && comment@ == c)
        },
        Parsed::NotAnAdmin => res matches Err(LoungeError::NotAnAdmin(n)) && n@ == name,
        Parsed::Malformed => res matches Err(LoungeError::CommandParse(t)) && t@ == text,
    }
}

fn is_admin_token(word: &str) -> (b: bool)
    ensures
        b == is_admin_word(word@),
{
    str_eq(word, "/add") || str_eq(word, "/rename") || str_eq(word, "/ban") || str_eq(
        word,
        "/commit",
    ) || str_eq(word, "/reload")
}

/// What stands behind the first word of `text`; see [`argument_of`].
pub fn argument(text: &str) -> (rest: String)
    ensures
        rest@ == argument_of(text@),
{
    let sep = Separator::Whitespace;
    let chars = to_chars(text);
    let mut i: usize = 0;
    while i < chars.len() && !sep.test(chars[i])
        invariant
            i <= chars.len(),
            sep == Separator::Whitespace,
            forall|j: int| 0 <= j < i ==> !sep.matches(#[trigger] chars@[j]),
        decreases chars.len() - i,
    {
        i += 1;
    }
    proof {
        lemma_find_unique(chars@, sep, i as int);
    }
    if i < chars.len() {
        let rest = from_chars(&chars, i + 1, chars.len());
        assert(rest@ == chars@.skip(i + 1));
        rest
    } else {
        String::new()
    }
}

impl Command {
    /// Reads a line as a command from its words and from what stands
    /// behind its first word; see [`parse_tokens`].  `text` is the line
    /// itself and `name` the issuer's name, for the errors that hold them.
    pub fn from_tokens(
        tokens: &Vec<String>,
        argument: &str,
        text: &str,
        role: Role,
        name: String,
    ) -> (res: Result<Option<Command>, LoungeError>)
        ensures
            answers(
                res,
                parse_tokens(views(tokens@), argument@, role == Role::Admin),
                text@,
                name@,
            ),
    {
        let ghost words = views(tokens@);
        let n = tokens.len();
        if n == 0 {
            return Ok(None);
        }
        let word = tokens[0].as_str();
        assert(word@ == words[0]);
        let admin = match role {
            Role::Admin => true,
            Role::Normal => false,
        };
        if str_eq(word, "/info") && n == 2 {
            assert(tokens@[1]@ == words[1]);
            return match EntityLookup::from_str(tokens[1].as_str()) {
                Ok(lookup) => Ok(Some(Command::Info(lookup))),
                Err(e) => Err(e),
            };
        }
        if is_admin_token(word) && !admin {
            return Err(LoungeError::NotAnAdmin(name));
        }
        if str_eq(word, "/add") && n >= 2 {
            return match Entity::from_str(argument) {
                Ok(entity) => Ok(Some(Command::Add(entity))),
                Err(e) => Err(LoungeError::EntityParsing(e)),
            };
        }
        if str_eq(word, "/ban") && n == 2 {
            assert(tokens@[1]@ == words[1]);
            return match EntityLookup::from_str(tokens[1].as_str()) {
                Ok(lookup) => Ok(Some(Command::Ban(lookup))),
                Err(e) => Err(e),
            };
        }
        if str_eq(word, "/commit") && n == 1 {
            return Ok(Some(Command::Commit));
        }
        if str_eq(word, "/reload") && n == 1 {
            return Ok(Some(Command::Reload));
        }
        if str_eq(word, "/rename") && n == 3 {
            assert(tokens@[1]@ == words[1]);
            assert(tokens@[2]@ == words[2]);
            return Ok(
                Some(Command::Rename { from: tokens[1].clone(), to: tokens[2].clone() }),
            );
        }
        if str_eq(word, "/info") || is_admin_token(word) {
            return Err(LoungeError::CommandParse(String::from_str(text)));
        }
        Ok(None)
    }

    /// Reads a line of input as a command; see [`parse_command`].  `role`
    /// and `name` are those of the issuer.
    pub fn parse(text: &str, role: Role, name: String) -> (res: Result<Option<Command>, LoungeError>)
        ensures
            answers(res, parse_command(text@, role == Role::Admin), text@, name@),
    {
        let tokens = split_text(text, Separator::Whitespace);
        let rest = argument(text);
        Command::from_tokens(&tokens, rest.as_str(), text, role, name)
    }
}

} // verus!
