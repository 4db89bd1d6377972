use vstd::prelude::*;

use crate::context::{messages_view, set_system_prompt, with_system_prompt, Message};
use crate::prompts::{lookup, SystemPrompts};
use crate::text::{chars_of, string_of};

verus! {

/// Why a command did not run to its end.
#[derive(Clone, Copy, Debug, PartialEq, Eq, Structural)]
pub enum CommandError {
    CommandNotFound,
    InvalidModel,
    UpdateFailed,
    InvalidSystemPrompt,
    Aborted,
}

/// The terminal front end: the list selector, the external editor and screen clearing are
/// driven by the program around this library.
pub struct CLI;

impl CLI {
    pub fn new() -> (r: CLI) {
        CLI
    }
}

pub open spec fn strings_view(v: Seq<String>) -> Seq<Seq<char>> {
    v.map_values(|s: String| s@)
}

/// The first position of `name` among `names`, if it is there.
pub open spec fn first_position(names: Seq<Seq<char>>, name: Seq<char>) -> Option<nat>
    decreases names.len(),
{
    if names.len() == 0 {
        None
    } else if names.last() == name {
        match first_position(names.drop_last(), name) {
            Some(p) => Some(p),
            None => Some((names.len() - 1) as nat),
        }
    } else {
        first_position(names.drop_last(), name)
    }
}

/// Where `name` first stands among `available`, if it is there.
pub fn position_of(available: &[String], name: &str) -> (r: Option<usize>)
    ensures
        r matches Some(i) ==> first_position(strings_view(available@), name@) == Some(i as nat),
        r is None ==> first_position(strings_view(available@), name@) is None,
{
    let key = String::from_str(name);
    let ghost names = strings_view(available@);
    let mut i: usize = 0;
    while i < available.len()
        invariant
            i <= available@.len(),
            names == strings_view(available@),
            key@ == name@,
            first_position(names.subrange(0, i as int), name@) is None,
        decreases available@.len() - i,
    {
        assert(names.subrange(0, i + 1).drop_last() =~= names.subrange(0, i as int));
        if available[i] == key {
            proof {
                assert(names[i as int] == name@);
                lemma_first_position_prefix(names, name@, i as int);
            }
            return Some(i);
        }
        i += 1;
    }
    assert(names.subrange(0, i as int) =~= names);
    None
}

/// The item that a choice among `available` starts on: `default`, where it is one of
/// them, else the first.
pub fn initial_choice(available: &[String], default: Option<&str>) -> (r: usize)
    ensures
        default is None ==> r == 0,
        default matches Some(d) ==> r == match first_position(strings_view(available@), d@) {
            Some(p) => p,
            None => 0nat,
        },
{
    match default {
        None => 0,
        Some(d) => match position_of(available, d) {
            Some(p) => p,
            None => 0,
        },
    }
}

/// The model called `name` among `available`; naming none of them is an error.
pub fn find_model(available: &[String], name: &str) -> (r: Result<usize, CommandError>)
    ensures
        r matches Ok(i) ==> first_position(strings_view(available@), name@) == Some(i as nat),
        r is Err ==> r == Err::<usize, _>(CommandError::InvalidModel) && first_position(
            strings_view(available@),
            name@,
        ) is None,
{
    match position_of(available, name) {
        Some(p) => Ok(p),
        None => Err(CommandError::InvalidModel),
    }
}

/// Makes the prompt called `name` the system message of `context`; an unknown name is an
/// error and changes nothing.
pub fn use_system_prompt(prompts: &SystemPrompts, name: &str, context: &mut Vec<Message>) -> (r:
    Result<(), CommandError>)
    requires
        prompts.wf(),
    ensures
        lookup(prompts@, name@) matches Some(c) ==> r is Ok && messages_view(final(context)@)
            == with_system_prompt(messages_view(old(context)@), c),
        lookup(prompts@, name@) is None ==> r == Err::<(), _>(CommandError::InvalidSystemPrompt)
            && final(context)@ == old(context)@,
{
    match prompts.get(name) {
        Some(c) => {
            set_system_prompt(context, c.as_str());
            Ok(())
        },
        None => Err(CommandError::InvalidSystemPrompt),
    }
}

/// If `name` is first found at `i`, it is found there in every longer prefix too.
proof fn lemma_first_position_prefix(names: Seq<Seq<char>>, name: Seq<char>, i: int)
    requires
        0 <= i < names.len(),
        names[i] == name,
        first_position(names.subrange(0, i), name) is None,
    ensures
        first_position(names, name) == Some(i as nat),
    decreases names.len(),
{
    if names.len() > i + 1 {
        assert(names.drop_last().subrange(0, i) =~= names.subrange(0, i));
        lemma_first_position_prefix(names.drop_last(), name, i);
    } else {
        assert(names.drop_last() =~= names.subrange(0, i));
    }
}

/// The name that a finished selection over `available` picked: the first index chosen,
/// if any.
pub fn chosen_name(available: &[String], chosen: &[usize]) -> (r: Option<String>)
    requires
        chosen@.len() > 0 ==> chosen@[0] < available@.len(),
    ensures
        chosen@.len() == 0 ==> r is None,
        chosen@.len() > 0 ==> (r matches Some(s) && s@ == available@[chosen@[0] as int]@),
{
    if chosen.len() == 0 {
        None
    } else {
        Some(available[chosen[0]].clone())
    }
}

/// The words of `s`: its maximal runs of characters other than a space, in order.
pub open spec fn words(s: Seq<char>) -> Seq<Seq<char>>
    decreases s.len(),
{
    if s.len() == 0 {
        Seq::empty()
    } else {
        let w = words(s.drop_last());
        let c = s.last();
        if c == ' ' {
            w
        } else if s.len() >= 2 && s[s.len() - 2] != ' ' {
            w.update(w.len() - 1, w.last().push(c))
        } else {
            w.push(seq![c])
        }
    }
}

/// Whether a line is a command: a slash followed by at least one character.
pub open spec fn is_command_line(s: Seq<char>) -> bool {
    s.len() > 1 && s[0] == '/'
}

/// The words of a command line after its slash (the command's name, then its
/// arguments), or `None` for a line that is not a command.
pub fn command_words(input: &str) -> (r: Option<Vec<String>>)
    ensures
        r is Some <==> is_command_line(input@),
        r matches Some(w) ==> strings_view(w@) == words(input@.drop_first()),
{
    let cs = chars_of(input);
    if cs.len() <= 1 || cs[0] != '/' {
        return None;
    }
    let ghost body = input@.drop_first();
    let mut done: Vec<String> = Vec::new();
    let mut cur: Vec<char> = Vec::new();
    let mut i: usize = 1;
    while i < cs.len()
        invariant
            1 <= i <= cs@.len(),
            cs@ == input@,
            body == input@.drop_first(),
            cur@.len() > 0 <==> (i > 1 && cs@[i - 1] != ' '),
            words(body.subrange(0, i - 1)) == strings_view(done@) + (if cur@.len() > 0 {
                seq![cur@]
            } else {
                Seq::empty()
            }),
        decreases cs@.len() - i,
    {
        let c = cs[i];
        let ghost pre = body.subrange(0, i as int);
        assert(pre.drop_last() =~= body.subrange(0, i - 1));
        assert(pre.last() == c);
        if c == ' ' {
            if cur.len() > 0 {
                let w = string_of(cur.as_slice());
                done.push(w);
                cur = Vec::new();
                assert(strings_view(done@) =~= words(pre));
            }
            assert(cur@ =~= Seq::<char>::empty());
        } else {
            let ghost old_done = strings_view(done@);
            let ghost old_cur = cur@;
            cur.push(c);
            proof {
                if old_cur.len() > 0 {
                    assert(pre.len() >= 2 && pre[pre.len() - 2] != ' ');
                    assert(words(pre) =~= old_done + seq![cur@]);
                } else {
                    if pre.len() >= 2 {
                        assert(pre[pre.len() - 2] == cs@[i - 1]);
                    }
                    assert(cur@ =~= seq![c]);
                    assert(old_done + Seq::<Seq<char>>::empty() =~= old_done);
                    assert(words(pre.drop_last()) == old_done);
                    assert(words(pre) == old_done.push(seq![c]));
                    assert(words(pre) =~= old_done + seq![cur@]);
                }
            }
        }
        i += 1;
    }
    assert(body.subrange(0, i - 1) =~= body);
    if cur.len() > 0 {
        done.push(string_of(cur.as_slice()));
    }
    assert(strings_view(done@) =~= words(body));
    Some(done)
}

} // verus!
