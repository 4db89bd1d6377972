use vstd::prelude::*;

verus! {

/// One message of a conversation: who speaks, and what is said.
#[derive(Debug)]
pub struct Message {
    pub role: String,
    pub content: String,
}

pub open spec fn system_role() -> Seq<char> {
    seq!['s', 'y', 's', 't', 'e', 'm']
}

pub open spec fn message_view(m: Message) -> (Seq<char>, Seq<char>) {
    (m.role@, m.content@)
}

pub open spec fn messages_view(ms: Seq<Message>) -> Seq<(Seq<char>, Seq<char>)> {
    ms.map_values(|m: Message| message_view(m))
}

/// The conversation with its system message set to `content`: a leading system message
/// is dropped, and unless `content` is empty a new one leads.
pub open spec fn with_system_prompt(
    ms: Seq<(Seq<char>, Seq<char>)>,
    content: Seq<char>,
) -> Seq<(Seq<char>, Seq<char>)> {
    let rest = if ms.len() > 0 && ms[0].0 == system_role() {
        ms.drop_first()
    } else {
        ms
    };
    if content.len() == 0 {
        rest
    } else {
        seq![(system_role(), content)] + rest
    }
}

/// Sets the system message of `context` to `content` (or removes it, for an empty one).
pub fn set_system_prompt(context: &mut Vec<Message>, content: &str)
    ensures
        messages_view(final(context)@) == with_system_prompt(messages_view(old(context)@), content@),
{
    let system = String::from_str("system");
    proof {
        reveal_strlit("system");
        assert(system@ =~= system_role());
    }
    let ghost ms = messages_view(old(context)@);
    if context.len() > 0 && context[0].role == system {
        context.remove(0);
        assert(messages_view(context@) =~= ms.drop_first());
    }
    let ghost rest = messages_view(context@);
    if !content.is_empty() {
        context.insert(0, Message { role: system, content: String::from_str(content) });
        assert(messages_view(context@) =~= seq![(system_role(), content@)] + rest);
    }
}

/// The first `n` entries of `s`, less those whose position is listed in `drop`.
pub open spec fn without_positions<T>(s: Seq<T>, drop: Seq<usize>, n: int) -> Seq<T>
    decreases n,
{
    if n <= 0 {
        Seq::empty()
    } else {
        let r = without_positions(s, drop, n - 1);
        if drop.contains((n - 1) as usize) {
            r
        } else {
            r.push(s[n - 1])
        }
    }
}

fn listed(drop: &[usize], i: usize) -> (r: bool)
    ensures
        r == drop@.contains(i),
{
    let mut k: usize = 0;
    while k < drop.len()
        invariant
            k <= drop@.len(),
            forall|j: int| 0 <= j < k ==> drop@[j] != i,
        decreases drop@.len() - k,
    {
        if drop[k] == i {
            return true;
        }
        k += 1;
    }
    false
}

/// Removes from `context` the messages at the positions listed in `drop` (in any order;
/// repeated or missing positions are ignored); the others keep their order.
pub fn remove_messages(context: &mut Vec<Message>, drop: &[usize])
    ensures
        messages_view(final(context)@) == without_positions(
            messages_view(old(context)@),
            drop@,
            old(context)@.len() as int,
        ),
{
    let mut all: Vec<Message> = Vec::new();
    std::mem::swap(context, &mut all);
    let ghost ms = messages_view(all@);
    let n = all.len();
    let mut i: usize = 0;
    for m in it: all.into_iter()
        invariant
            it.seq() == old(context)@,
            n == old(context)@.len(),
            ms == messages_view(old(context)@),
            i == it.index(),
            messages_view(context@) == without_positions(ms, drop@, i as int),
    {
        proof {
            assert(m == it.seq()[i as int]);
        }
        if !listed(drop, i) {
            let ghost before = messages_view(context@);
            context.push(m);
            assert(messages_view(context@) =~= before.push(ms[i as int]));
        }
        i = i + 1;
    }
}

} // verus!
