//! Unread messages grouped by sender, senders in order of their first message.
use vstd::prelude::*;

verus! {

/// The plain view of a list of strings.
pub open spec fn strings_view(v: Seq<String>) -> Seq<Seq<char>> {
    v.map_values(|s: String| s@)
}

/// The plain view of a list of (sender, messages) groups.
pub open spec fn groups_view(v: Seq<(String, Vec<String>)>) -> Seq<(Seq<char>, Seq<Seq<char>>)> {
    v.map_values(|e: (String, Vec<String>)| (e.0@, strings_view(e.1@)))
}

/// No sender has two groups.
pub open spec fn senders_unique(g: Seq<(Seq<char>, Seq<Seq<char>>)>) -> bool {
    forall|a: int, b: int| 0 <= a < b < g.len() ==> #[trigger] g[a].0 != #[trigger] g[b].0
}

/// Whether `sender` has a group.
pub open spec fn has_sender(g: Seq<(Seq<char>, Seq<Seq<char>>)>, sender: Seq<char>) -> bool {
    exists|j: int| 0 <= j < g.len() && #[trigger] g[j].0 == sender
}

/// Whether `j` is the first group of `sender`.
pub open spec fn is_first_of(g: Seq<(Seq<char>, Seq<Seq<char>>)>, sender: Seq<char>, j: int) -> bool {
    0 <= j < g.len() && g[j].0 == sender && forall|t: int| 0 <= t < j ==> #[trigger] g[t].0 != sender
}

/// The index of the first group of `sender`, where it has one.
pub open spec fn first_of(g: Seq<(Seq<char>, Seq<Seq<char>>)>, sender: Seq<char>) -> int {
    choose|j: int| is_first_of(g, sender, j)
}

/// The messages of `sender`, oldest first; empty if it has no group.
pub open spec fn messages_from(g: Seq<(Seq<char>, Seq<Seq<char>>)>, sender: Seq<char>) -> Seq<Seq<char>> {
    if has_sender(g, sender) {
        g[first_of(g, sender)].1
    } else {
        Seq::empty()
    }
}

/// The groups after `message` from `sender` is added: appended to the
/// sender's group, or a new group at the end.
pub open spec fn with_message(g: Seq<(Seq<char>, Seq<Seq<char>>)>, sender: Seq<char>, message: Seq<char>) -> Seq<
    (Seq<char>, Seq<Seq<char>>),
> {
    if has_sender(g, sender) {
        let j = first_of(g, sender);
        g.update(j, (sender, g[j].1.push(message)))
    } else {
        g.push((sender, seq![message]))
    }
}

/// The groups after each of `msgs` from `sender` is added, in order.
pub open spec fn with_messages(g: Seq<(Seq<char>, Seq<Seq<char>>)>, sender: Seq<char>, msgs: Seq<Seq<char>>) -> Seq<
    (Seq<char>, Seq<Seq<char>>),
>
    decreases msgs.len(),
{
    if msgs.len() == 0 {
        g
    } else {
        with_message(with_messages(g, sender, msgs.drop_last()), sender, msgs.last())
    }
}

proof fn lemma_first_unique(g: Seq<(Seq<char>, Seq<Seq<char>>)>, s: Seq<char>, j: int)
    requires
        is_first_of(g, s, j),
    ensures
        has_sender(g, s),
        first_of(g, s) == j,
{
    assert(g[j].0 == s);
    let c = first_of(g, s);
    assert(is_first_of(g, s, c));
    if c < j {
        assert(g[c].0 != s);
    } else if c > j {
        assert(g[j].0 != s);
    }
}

proof fn lemma_has_first(g: Seq<(Seq<char>, Seq<Seq<char>>)>, s: Seq<char>)
    requires
        has_sender(g, s),
    ensures
        is_first_of(g, s, first_of(g, s)),
    decreases g.len(),
{
    let w = choose|j: int| 0 <= j < g.len() && #[trigger] g[j].0 == s;
    if exists|t: int| 0 <= t < w && #[trigger] g[t].0 == s {
        let t = choose|t: int| 0 <= t < w && #[trigger] g[t].0 == s;
        let h = g.subrange(0, w);
        assert(h[t].0 == s);
        lemma_has_first(h, s);
        let k = first_of(h, s);
        assert(is_first_of(g, s, k)) by {
            assert forall|u: int| 0 <= u < k implies #[trigger] g[u].0 != s by {
                assert(h[u] == g[u]);
            }
        }
    } else {
        assert(is_first_of(g, s, w));
    }
}

/// Adding a message from `sender` appends it to the sender's messages and
/// leaves every other sender's messages as they were.
pub proof fn lemma_with_message(g: Seq<(Seq<char>, Seq<Seq<char>>)>, s: Seq<char>, m: Seq<char>)
    ensures
        messages_from(with_message(g, s, m), s) == messages_from(g, s).push(m),
        forall|o: Seq<char>|
            o != s ==> #[trigger] messages_from(with_message(g, s, m), o) == messages_from(g, o),
{
    let n = with_message(g, s, m);
    if has_sender(g, s) {
        lemma_has_first(g, s);
        let j = first_of(g, s);
        assert(forall|k: int| 0 <= k < g.len() ==> #[trigger] n[k].0 == g[k].0);
        assert(is_first_of(n, s, j));
        lemma_first_unique(n, s, j);
        assert forall|o: Seq<char>| o != s implies #[trigger] messages_from(n, o) == messages_from(g, o) by {
            if has_sender(g, o) {
                lemma_has_first(g, o);
                let k = first_of(g, o);
                assert(is_first_of(n, o, k));
                lemma_first_unique(n, o, k);
            } else {
                assert(!has_sender(n, o));
            }
        }
    } else {
        assert(n[g.len() as int].0 == s);
        assert forall|t: int| 0 <= t < g.len() as int implies #[trigger] n[t].0 != s by {
            assert(n[t] == g[t]);
        }
        assert(is_first_of(n, s, g.len() as int));
        lemma_first_unique(n, s, g.len() as int);
        assert forall|o: Seq<char>| o != s implies #[trigger] messages_from(n, o) == messages_from(g, o) by {
            if has_sender(g, o) {
                lemma_has_first(g, o);
                let k = first_of(g, o);
                assert(is_first_of(n, o, k));
                lemma_first_unique(n, o, k);
            } else {
                assert forall|t: int| 0 <= t < n.len() implies #[trigger] n[t].0 != o by {
                    if t < g.len() {
                        assert(n[t] == g[t]);
                    }
                }
            }
        }
    }
    assert(messages_from(g, s).push(m) =~= messages_from(n, s));
}

/// Messages left by one sender, one after another, come back from that
/// sender in the order they were left, after what it had left before; no
/// other sender's messages change.
pub proof fn lemma_messages_in_order(g: Seq<(Seq<char>, Seq<Seq<char>>)>, s: Seq<char>, msgs: Seq<Seq<char>>)
    ensures
        messages_from(with_messages(g, s, msgs), s) == messages_from(g, s) + msgs,
        forall|o: Seq<char>|
            o != s ==> #[trigger] messages_from(with_messages(g, s, msgs), o) == messages_from(g, o),
    decreases msgs.len(),
{
    if msgs.len() == 0 {
        assert(messages_from(g, s) + msgs =~= messages_from(g, s));
    } else {
        let prev = with_messages(g, s, msgs.drop_last());
        lemma_messages_in_order(g, s, msgs.drop_last());
        lemma_with_message(prev, s, msgs.last());
        assert((messages_from(g, s) + msgs.drop_last()).push(msgs.last()) =~= messages_from(g, s) + msgs);
    }
}

/// Unread messages keyed by sender.
pub struct UnreadBySender {
    groups: Vec<(String, Vec<String>)>,
}

impl View for UnreadBySender {
    type V = Seq<(Seq<char>, Seq<Seq<char>>)>;

    closed spec fn view(&self) -> Self::V {
        groups_view(self.groups@)
    }
}

proof fn lemma_strings_push(a: Seq<String>, x: String)
    ensures
        strings_view(a.push(x)) == strings_view(a).push(x@),
{
    assert(strings_view(a.push(x)) =~= strings_view(a).push(x@));
}

proof fn lemma_groups_push(a: Seq<(String, Vec<String>)>, x: (String, Vec<String>))
    ensures
        groups_view(a.push(x)) == groups_view(a).push((x.0@, strings_view(x.1@))),
{
    assert(groups_view(a.push(x)) =~= groups_view(a).push((x.0@, strings_view(x.1@))));
}

fn copy_strings(v: &Vec<String>) -> (r: Vec<String>)
    ensures
        strings_view(r@) == strings_view(v@),
{
    let mut r: Vec<String> = Vec::new();
    let mut i: usize = 0;
    while i < v.len()
        invariant
            i <= v@.len(),
            strings_view(r@) == strings_view(v@.take(i as int)),
        decreases v@.len() - i,
    {
        let ghost prev = r@;
        let s = v[i].clone();
        r.push(s);
        assert(r@ == prev.push(s));
        assert(v@.take(i + 1) == v@.take(i as int).push(v@[i as int]));
        proof {
            lemma_strings_push(prev, s);
            lemma_strings_push(v@.take(i as int), v@[i as int]);
        }
        i = i + 1;
    }
    assert(v@.take(i as int) =~= v@);
    r
}

impl UnreadBySender {
    pub open spec fn wf(&self) -> bool {
        senders_unique(self@)
    }

    pub fn new() -> (r: Self)
        ensures
            r.wf(),
            r@ == Seq::<(Seq<char>, Seq<Seq<char>>)>::empty(),
    {
        let r = UnreadBySender { groups: Vec::new() };
        assert(r@ =~= Seq::<(Seq<char>, Seq<Seq<char>>)>::empty());
        r
    }

    /// The index of the first group of `sender`, if it has one.
    fn find(&self, sender: &String) -> (r: Option<usize>)
        ensures
            r is None <==> !has_sender(self@, sender@),
            r is Some ==> r->Some_0 < self@.len() && r->Some_0 == first_of(self@, sender@) && self@[r->Some_0 as int].0
                == sender@,
    {
        let mut j: usize = 0;
        while j < self.groups.len()
            invariant
                j <= self@.len(),
                self@.len() == self.groups@.len(),
                forall|t: int| 0 <= t < j ==> #[trigger] self@[t].0 != sender@,
            decreases self@.len() - j,
        {
            if self.groups[j].0 == *sender {
                assert(is_first_of(self@, sender@, j as int));
                let ghost c = first_of(self@, sender@);
                assert(c == j) by {
                    if c < j {
                    } else if c > j {
                        assert(self@[j as int].0 == sender@);
                    }
                }
                return Some(j);
            }
            j = j + 1;
        }
        None
    }

    /// Adds `message` from `sender`.
    pub fn leave(&mut self, sender: String, message: String)
        ensures
            old(self).wf() ==> final(self).wf(),
            final(self)@ == with_message(old(self)@, sender@, message@),
    {
        let ghost before = self@;
        match self.find(&sender) {
            Some(j) => {
                let mut msgs = copy_strings(&self.groups[j].1);
                let ghost prev = strings_view(msgs@);
                msgs.push(message);
                assert(strings_view(msgs@) =~= prev.push(message@));
                self.groups.set(j, (sender, msgs));
                assert(self@ =~= before.update(j as int, (sender@, before[j as int].1.push(message@))));
            },
            None => {
                let mut msgs: Vec<String> = Vec::new();
                msgs.push(message);
                assert(strings_view(msgs@) =~= seq![message@]);
                self.groups.push((sender, msgs));
                assert(self@ =~= before.push((sender@, seq![message@])));
            },
        }
    }

    /// Every group, senders in order of their first message.
    pub fn groups(&self) -> (r: Vec<(String, Vec<String>)>)
        ensures
            groups_view(r@) == self@,
    {
        let mut r: Vec<(String, Vec<String>)> = Vec::new();
        let mut i: usize = 0;
        while i < self.groups.len()
            invariant
                i <= self.groups@.len(),
                groups_view(r@) == groups_view(self.groups@.take(i as int)),
            decreases self.groups@.len() - i,
        {
            let ghost prev = r@;
            let e = (self.groups[i].0.clone(), copy_strings(&self.groups[i].1));
            r.push(e);
            assert(r@ == prev.push(e));
            assert(self.groups@.take(i + 1) == self.groups@.take(i as int).push(self.groups@[i as int]));
            proof {
                lemma_groups_push(prev, e);
                lemma_groups_push(self.groups@.take(i as int), self.groups@[i as int]);
            }
            i = i + 1;
        }
        assert(self.groups@.take(i as int) =~= self.groups@);
        r
    }

    /// The messages of `sender`, oldest first.
    pub fn messages_of(&self, sender: &String) -> (r: Vec<String>)
        ensures
            strings_view(r@) == messages_from(self@, sender@),
    {
        match self.find(sender) {
            Some(j) => copy_strings(&self.groups[j].1),
            None => {
                let r: Vec<String> = Vec::new();
                assert(strings_view(r@) =~= Seq::<Seq<char>>::empty());
                r
            },
        }
    }

    /// Removes every group.
    pub fn clear(&mut self)
        ensures
            final(self).wf(),
            final(self)@ == Seq::<(Seq<char>, Seq<Seq<char>>)>::empty(),
    {
        self.groups.clear();
        assert(self@ =~= Seq::<(Seq<char>, Seq<Seq<char>>)>::empty());
    }
}

} // verus!
