//! The kinds of user-visible failures the shell reports, and the table of
//! message phrasings for each kind.  Which phrasing is shown is drawn at
//! random; every phrasing of a kind carries the same meaning, so callers
//! should rely only on the kind.

use vstd::prelude::*;

verus! {

/// One kind per user-visible failure class.
pub enum Errors {
    CommandNotFound,
    PermissionDenied,
    FileNotFound,
    InvalidArgument,
    ParsingError,
}

/// How many phrasings the message table holds for `err`.
pub open spec fn error_choice_count(err: Errors) -> int {
    match err {
        Errors::CommandNotFound => 3,
        Errors::PermissionDenied => 3,
        Errors::FileNotFound => 6,
        Errors::InvalidArgument => 3,
        Errors::ParsingError => 7,
    }
}

/// The `i`th phrasing of the message table for `err`.
pub open spec fn error_choice(err: Errors, i: int) -> Seq<char> {
    match err {
        Errors::CommandNotFound => if i == 0 {
            "Rodeo! Couldn't find that command."@
        } else if i == 1 {
            "Hold on partner, I don't recognize that command."@
        } else {
            "Whoopsie, it seems that command done got away."@
        },
        Errors::PermissionDenied => if i == 0 {
            "Permission denied. Looks like you're not the sheriff around here."@
        } else if i == 1 {
            "You don't have the necessary permissions to do that. Time to call in the big guns (sudo)."@
        } else {
            "Uh oh, permission denied. You might need to ask for help from the root sheriff."@
        },
        Errors::FileNotFound => if i == 0 {
            "File not found, it's probably out there somewhere. Keep searching partner."@
        } else if i == 1 {
            "Whoops! I couldn't find that file. Maybe it's hiding in the hills."@
        } else if i == 2 {
            "File not found, did you check your trail?"@
        } else if i == 3 {
            "Looks like a snake in your boot! Couldn't find that file."@
        } else if i == 4 {
            "Galloping ghosts! The file couldn't be found."@
        } else {
            "Well shucks, looks like we hit a snag finding that file."@
        },
        Errors::InvalidArgument => if i == 0 {
            "Uh oh, that argument won't work. Time to try a different trail."@
        } else if i == 1 {
            "invalid argument. You need to check your input, partner."@
        } else {
            "Oops! That argument is invalid. Try a different one."@
        },
        Errors::ParsingError => if i == 0 {
            "Hold your horses, seems like there's a problem with that command. Did you miss a quotation mark?"@
        } else if i == 1 {
            "Looks like you got some trail mix in your command. Maybe check for typos?"@
        } else if i == 2 {
            "Yeehaw! That command ain't quite right. Did you forget a semicolon or pipe?"@
        } else if i == 3 {
            "Dangnabbit, the sheriff can't make sense of that command. Did you mix up some keywords?"@
        } else if i == 4 {
            "Well I'll be! The sheriff's having trouble parsing that command. Did you use an unsupported character?"@
        } else if i == 5 {
            "Looks like there's a snake in your command. The sheriff can't parse it."@
        } else {
            "Uh oh, seems like that command didn't make it across the Rio Grande. Did you escape all special characters properly?"@
        },
    }
}

/// Relies on `rand::Rng::gen_range`: the result of sampling `0..n` lies in
/// that range, and the range is non-empty so the call does not panic.
#[verifier::external_body]
fn random_below(n: usize) -> (r: usize)
    requires
        n >= 1,
    ensures
        r < n,
{
    rand::Rng::gen_range(&mut rand::thread_rng(), 0..n)
}

/// Picks one phrasing of the message table for `err`.  Which one comes back
/// is up to chance; it is always an entry of the table for that kind.
pub fn get_error_message(err: Errors) -> (msg: String)
    ensures
        exists|i: int| 0 <= i < error_choice_count(err) && msg@ == error_choice(err, i),
{
    let mut choices: Vec<&str> = Vec::new();
    match err {
        Errors::CommandNotFound => {
            choices.push("Rodeo! Couldn't find that command.");
            choices.push("Hold on partner, I don't recognize that command.");
            choices.push("Whoopsie, it seems that command done got away.");
        },
        Errors::PermissionDenied => {
            choices.push("Permission denied. Looks like you're not the sheriff around here.");
            choices.push("You don't have the necessary permissions to do that. Time to call in the big guns (sudo).");
            choices.push("Uh oh, permission denied. You might need to ask for help from the root sheriff.");
        },
        Errors::FileNotFound => {
            choices.push("File not found, it's probably out there somewhere. Keep searching partner.");
            choices.push("Whoops! I couldn't find that file. Maybe it's hiding in the hills.");
            choices.push("File not found, did you check your trail?");
            choices.push("Looks like a snake in your boot! Couldn't find that file.");
            choices.push("Galloping ghosts! The file couldn't be found.");
            choices.push("Well shucks, looks like we hit a snag finding that file.");
        },
        Errors::InvalidArgument => {
            choices.push("Uh oh, that argument won't work. Time to try a different trail.");
            choices.push("invalid argument. You need to check your input, partner.");
            choices.push("Oops! That argument is invalid. Try a different one.");
        },
        Errors::ParsingError => {
            choices.push("Hold your horses, seems like there's a problem with that command. Did you miss a quotation mark?");
            choices.push("Looks like you got some trail mix in your command. Maybe check for typos?");
            choices.push("Yeehaw! That command ain't quite right. Did you forget a semicolon or pipe?");
            choices.push("Dangnabbit, the sheriff can't make sense of that command. Did you mix up some keywords?");
            choices.push("Well I'll be! The sheriff's having trouble parsing that command. Did you use an unsupported character?");
            choices.push("Looks like there's a snake in your command. The sheriff can't parse it.");
            choices.push("Uh oh, seems like that command didn't make it across the Rio Grande. Did you escape all special characters properly?");
        },
    }
    assert(forall|i: int| 0 <= i < choices@.len() ==> choices@[i]@ == error_choice(err, i));
    let n = random_below(choices.len());
    let msg = choices[n].to_owned();
    assert(msg@ == error_choice(err, n as int));
    msg
}

} // verus!
