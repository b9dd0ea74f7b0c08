//! The control channel's commands: one line in, one reply out.
use vstd::prelude::*;
use vstd::string::*;

use crate::allowlist::{is_listing, is_saved_text, views};
use crate::composite::CompositeCheckList;
use crate::text::{join, join_with, lower_of, lowercase};

verus! {

/// What a command asks of the caller beyond the lists.
pub enum IpctlReply {
    /// Reply with this line.
    Text(String),
    /// Change the log level to the one this text names, and reply how it
    /// went.
    SetLogLevel(String),
    /// Write `text` to the file `path`, and reply how it went.
    Save { path: String, text: String },
}

/// A text split at each space: always at least one piece, empty ones
/// included.
pub open spec fn split_spaces(t: Seq<char>) -> Seq<Seq<char>>
    decreases t.len(),
{
    if t.len() == 0 {
        seq![seq![]]
    } else {
        let rest = split_spaces(t.drop_last());
        if t.last() == ' ' {
            rest.push(seq![])
        } else {
            rest.update(rest.len() - 1, rest.last().push(t.last()))
        }
    }
}

proof fn lemma_split_spaces_nonempty(t: Seq<char>)
    ensures
        split_spaces(t).len() >= 1,
    decreases t.len(),
{
    if t.len() > 0 {
        lemma_split_spaces_nonempty(t.drop_last());
    }
}

/// The words of a command: the pieces between single spaces.
pub fn split_words(command: &str) -> (r: Vec<String>)
    ensures
        views(r@) == split_spaces(command@),
        r@.len() >= 1,
{
    let cs = crate::allowlist::chars_of(command);
    let mut done: Vec<String> = Vec::new();
    let mut start: usize = 0;
    let mut i: usize = 0;
    assert(command@.subrange(0, 0) =~= seq![]);
    assert(views(done@).push(command@.subrange(0, 0)) =~= seq![seq![]]);
    while i < cs.len()
        invariant
            cs@ == command@,
            0 <= start <= i <= cs@.len(),
            views(done@).push(command@.subrange(start as int, i as int)) == split_spaces(
                command@.subrange(0, i as int),
            ),
        decreases cs@.len() - i,
    {
        assert(command@.subrange(0, i + 1).drop_last() =~= command@.subrange(0, i as int));
        if cs[i] == ' ' {
            let piece = String::from_str(command.substring_char(start, i));
            let ghost d0 = done@;
            done.push(piece);
            proof {
                assert(views(done@) =~= views(d0).push(piece@));
                assert(command@.subrange((i + 1) as int, (i + 1) as int) =~= seq![]);
            }
            start = i + 1;
        } else {
            assert(command@.subrange(start as int, i + 1) =~= command@.subrange(
                start as int,
                i as int,
            ).push(cs@[i as int]));
        }
        i = i + 1;
        assert(views(done@).push(command@.subrange(start as int, i as int)) =~= split_spaces(
            command@.subrange(0, i as int),
        ));
    }
    assert(command@.subrange(0, i as int) =~= command@);
    let piece = String::from_str(command.substring_char(start, cs.len()));
    let ghost d0 = done@;
    done.push(piece);
    assert(views(done@) =~= views(d0).push(piece@));
    done
}

fn same_text(a: &str, b: &str) -> (r: bool)
    ensures
        r == (a@ == b@),
{
    String::from_str(a) == String::from_str(b)
}

proof fn lemma_verbs()
    ensures
        "log"@ != "allow"@ && "log"@ != "deny"@ && "log"@ != "save"@ && "log"@ != "list"@,
        "allow"@ != "deny"@ && "allow"@ != "save"@ && "allow"@ != "list"@,
        "deny"@ != "save"@ && "deny"@ != "list"@ && "save"@ != "list"@,
{
    reveal_strlit("log");
    reveal_strlit("allow");
    reveal_strlit("deny");
    reveal_strlit("save");
    reveal_strlit("list");
    assert("log"@.len() == 3 && "allow"@.len() == 5 && "deny"@.len() == 4);
    assert("save"@.len() == 4 && "list"@.len() == 4);
    assert("save"@[0] == 's' && "list"@[0] == 'l' && "deny"@[0] == 'd');
}

/// `Invalid command: <command>`.
pub open spec fn invalid_reply(command: Seq<char>) -> Seq<char> {
    "Invalid command: "@ + command
}

/// The reply text of a `Text` reply, or nothing for the others.
pub open spec fn reply_text(r: IpctlReply) -> Option<Seq<char>> {
    match r {
        IpctlReply::Text(t) => Some(t@),
        _ => None,
    }
}

/// What carrying out a command does: `verb` is its first word lowercased,
/// `words` its words and `command` its text; `before` and `after` are the lists
/// before and after, and `r` the reply.
pub open spec fn carries_out(
    verb: Seq<char>,
    words: Seq<Seq<char>>,
    command: Seq<char>,
    before: CompositeCheckList,
    after: CompositeCheckList,
    r: IpctlReply,
) -> bool {
    let known = verb == "log"@ || verb == "allow"@ || verb == "deny"@ || verb == "save"@ || verb
        == "list"@;
    &&& after.wf()
    &&& after.denylist@ == before.denylist@
    &&& after.denylist.spec_path() == before.denylist.spec_path()
    &&& after.allowlist.spec_path() == before.allowlist.spec_path()
    &&& verb == "log"@ && words.len() >= 2 ==> {
        &&& r matches IpctlReply::SetLogLevel(l)
        &&& r->SetLogLevel_0@ == words[1]
        &&& after.allowlist@ == before.allowlist@
    }
    &&& verb == "allow"@ && words.len() >= 2 ==> {
        let fqdn = words[1];
        let old_list = before.allowlist@;
        if before.allowlist.spec_count() < usize::MAX {
            &&& after.allowlist@ == old_list.add(fqdn)
            &&& reply_text(r) == Some(
                if old_list.add_count(fqdn) > 0 {
                    "Add "@ + fqdn + " to AllowList"@
                } else {
                    fqdn + " is already in AllowList"@
                },
            )
        } else {
            &&& after.allowlist@ == old_list
            &&& reply_text(r) == Some("Failed to add "@ + fqdn + " to AllowList"@)
        }
    }
    &&& verb == "deny"@ && words.len() >= 2 ==> {
        let fqdn = words[1];
        let old_list = before.allowlist@;
        &&& after.allowlist@ == old_list.delete(fqdn)
        &&& reply_text(r) == Some(
            if old_list.delete_count(fqdn) > 0 {
                "Remove "@ + fqdn + " from AllowList"@
            } else {
                fqdn + " is not in AllowList"@
            },
        )
    }
    &&& verb == "save"@ ==> {
        &&& after.allowlist@ == before.allowlist@
        &&& match r {
            IpctlReply::Save { path, text } => before.allowlist.spec_path() == Some(path@)
                && is_saved_text(before.allowlist@, text@),
            IpctlReply::Text(t) => before.allowlist.spec_path() is None && t@
                == "Failed to save allowlist: In-memory mode"@,
            _ => false,
        }
    }
    &&& verb == "list"@ ==> {
        &&& after.allowlist@ == before.allowlist@
        &&& exists|es: Seq<Seq<char>>|
            is_listing(before.allowlist@, es) && reply_text(r) == Some(
                #[trigger] join_with(es, "\n"@),
            )
    }
    &&& (verb == "log"@ || verb == "allow"@ || verb == "deny"@) && words.len() < 2 ==> {
        &&& after.allowlist@ == before.allowlist@
        &&& reply_text(r) == Some(invalid_reply(command))
    }
    &&& !known ==> {
        &&& after.allowlist@ == before.allowlist@
        &&& reply_text(r) == Some(invalid_reply(command))
    }
}

/// Carries out a command whose first word, lowercased, is `verb`; `words`
/// are its words and `command` its whole text:
/// `log <level>`, `allow <fqdn>`, `deny <fqdn>`, `save` and `list`, all on the
/// allow list. Anything else is an invalid command.
pub fn dispatch(
    verb: &str,
    words: &Vec<String>,
    command: &str,
    checklist: &mut CompositeCheckList,
) -> (r: IpctlReply)
    requires
        old(checklist).wf(),
    ensures
        carries_out(verb@, views(words@), command@, *old(checklist), *final(checklist), r),
{
    proof {
        lemma_verbs();
    }
    let invalid = String::from_str("Invalid command: ").concat(command);
    if same_text(verb, "allow") {
        if words.len() < 2 {
            return IpctlReply::Text(invalid);
        }
        let fqdn = words[1].as_str();
        if checklist.allowlist.count() == usize::MAX {
            return IpctlReply::Text(
                String::from_str("Failed to add ").concat(fqdn).concat(" to AllowList"),
            );
        }
        if checklist.allowlist.add(fqdn) > 0 {
            IpctlReply::Text(String::from_str("Add ").concat(fqdn).concat(" to AllowList"))
        } else {
            IpctlReply::Text(String::from_str(fqdn).concat(" is already in AllowList"))
        }
    } else if same_text(verb, "deny") {
        if words.len() < 2 {
            return IpctlReply::Text(invalid);
        }
        let fqdn = words[1].as_str();
        if checklist.allowlist.delete(fqdn) > 0 {
            IpctlReply::Text(String::from_str("Remove ").concat(fqdn).concat(" from AllowList"))
        } else {
            IpctlReply::Text(String::from_str(fqdn).concat(" is not in AllowList"))
        }
    } else {
        match query(verb, words, command, checklist) {
            Some(r) => r,
            None => IpctlReply::Text(invalid),
        }
    }
}

/// Carries out a command that only reads the lists, with the verb `verb`
/// (its first word, lowercased), its words `words` and its text `command`:
/// every command but `allow` and `deny`, for which it returns `None`.
pub fn query(
    verb: &str,
    words: &Vec<String>,
    command: &str,
    checklist: &CompositeCheckList,
) -> (r: Option<IpctlReply>)
    requires
        checklist.wf(),
    ensures
        r is None <==> (verb@ == "allow"@ || verb@ == "deny"@),
        r is Some ==> carries_out(verb@, views(words@), command@, *checklist, *checklist, r->0),
{
    proof {
        lemma_verbs();
    }
    let invalid = String::from_str("Invalid command: ").concat(command);
    if same_text(verb, "allow") || same_text(verb, "deny") {
        None
    } else if same_text(verb, "log") {
        if words.len() < 2 {
            return Some(IpctlReply::Text(invalid));
        }
        Some(IpctlReply::SetLogLevel(String::from_str(words[1].as_str())))
    } else if same_text(verb, "save") {
        match checklist.allowlist.save() {
            Ok((path, text)) => Some(IpctlReply::Save { path, text }),
            Err(_) => Some(
                IpctlReply::Text(String::from_str("Failed to save allowlist: In-memory mode")),
            ),
        }
    } else if same_text(verb, "list") {
        let it = checklist.allowlist.iter();
        Some(IpctlReply::Text(join(&it.items, "\n")))
    } else {
        Some(IpctlReply::Text(invalid))
    }
}

/// Carries out one command line of the control channel: its first word,
/// lowercased, is the verb. See `dispatch`.
pub fn on_ipctl(command: &str, checklist: &mut CompositeCheckList) -> (r: IpctlReply)
    requires
        old(checklist).wf(),
    ensures
        carries_out(
            lower_of(split_spaces(command@)[0]),
            split_spaces(command@),
            command@,
            *old(checklist),
            *final(checklist),
            r,
        ),
{
    let words = split_words(command);
    assert(views(words@)[0] == words@[0]@);
    let verb = lowercase(words[0].as_str());
    dispatch(verb.as_str(), &words, command, checklist)
}

/// Carries out one command line that only reads the lists; `None` for
/// `allow` and `deny`, which `on_ipctl` carries out. See `query`.
pub fn on_ipctl_query(command: &str, checklist: &CompositeCheckList) -> (r: Option<IpctlReply>)
    requires
        checklist.wf(),
    ensures
        r is None <==> (lower_of(split_spaces(command@)[0]) == "allow"@ || lower_of(
            split_spaces(command@)[0],
        ) == "deny"@),
        r is Some ==> carries_out(
            lower_of(split_spaces(command@)[0]),
            split_spaces(command@),
            command@,
            *checklist,
            *checklist,
            r->0,
        ),
{
    let words = split_words(command);
    assert(views(words@)[0] == words@[0]@);
    let verb = lowercase(words[0].as_str());
    query(verb.as_str(), &words, command, checklist)
}

} // verus!
