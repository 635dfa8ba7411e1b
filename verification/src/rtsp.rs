//! The typewriter: letters that a client sends one request at a time, and
//! that are later read back as one text.

use vstd::prelude::*;

use crate::text::{append_str, string_of, string_texts};

verus! {

/// Who is typing: a client address and the token it types under.
#[derive(Debug, Clone, Eq, PartialEq, Ord, PartialOrd, Hash)]
pub struct ClientToken {
    pub client_ip: String,
    pub client_token: String,
}

impl ClientToken {
    pub fn new(client_ip: String, token: String) -> (r: ClientToken)
        ensures
            r.client_ip == client_ip,
            r.client_token == token,
    {
        ClientToken { client_ip, client_token: token }
    }

    /// The address and the token as text.
    pub open spec fn key(&self) -> (Seq<char>, Seq<char>) {
        (self.client_ip@, self.client_token@)
    }

    /// Whether both name the same client and token.
    pub fn same(&self, other: &ClientToken) -> (r: bool)
        ensures
            r == (self.key() == other.key()),
    {
        self.client_ip == other.client_ip && self.client_token == other.client_token
    }
}

/// What one client has typed under one token.
pub struct Typewriter {
    pub who: ClientToken,
    pub letters: Vec<String>,
}

/// The letters typed so far, by client and token.
pub struct TypewriterServiceImpl {
    pub typewriters: Vec<Typewriter>,
}

/// Where the first typewriter of `who` stands, or the number of
/// typewriters if it has none.
pub open spec fn first_of(all: Seq<Typewriter>, who: (Seq<char>, Seq<char>)) -> nat
    decreases all.len(),
{
    if all.len() == 0 {
        0
    } else if all[0].who.key() == who {
        0
    } else {
        first_of(all.skip(1), who) + 1
    }
}

/// What `who` has typed and not yet had read.
pub open spec fn typed(all: Seq<Typewriter>, who: (Seq<char>, Seq<char>)) -> Seq<Seq<char>> {
    let at = first_of(all, who) as int;
    if at < all.len() {
        string_texts(all[at].letters@)
    } else {
        Seq::empty()
    }
}

/// The letters one after the other.
pub open spec fn joined(letters: Seq<Seq<char>>) -> Seq<char>
    decreases letters.len(),
{
    if letters.len() == 0 {
        Seq::empty()
    } else {
        joined(letters.drop_last()) + letters.last()
    }
}

/// The letter that a request types: the second part of the path
/// `/typewriter/{letter}` of a `DESCRIBE`.
pub open spec fn letter_of(describe: bool, path: Seq<String>) -> Option<Seq<char>> {
    if describe && path.len() == 2 && path[0]@ == "typewriter"@ {
        Some(path[1]@)
    } else {
        None
    }
}

/// The letter that a request types, if it types one.
pub fn typed_letter(describe: bool, path: &Vec<String>) -> (r: Option<String>)
    ensures
        match (r, letter_of(describe, path@)) {
            (Some(letter), Some(wanted)) => letter@ == wanted,
            (None, None) => true,
            _ => false,
        },
{
    if describe && path.len() == 2 {
        let head = crate::text::chars_of(path[0].as_str());
        if crate::text::equals_str(head.as_slice(), "typewriter") {
            return Some(path[1].clone());
        }
    }
    None
}

proof fn lemma_first_found(all: Seq<Typewriter>, who: (Seq<char>, Seq<char>), k: int)
    requires
        0 <= k < all.len(),
        all[k].who.key() == who,
        forall|j: int| 0 <= j < k ==> (#[trigger] all[j]).who.key() != who,
    ensures
        first_of(all, who) == k,
    decreases k,
{
    if k > 0 {
        assert(all[0].who.key() != who);
        assert forall|j: int| 0 <= j < k - 1 implies (#[trigger] all.skip(1)[j]).who.key()
            != who by {
            assert(all[j + 1].who.key() != who);
        }
        lemma_first_found(all.skip(1), who, k - 1);
    }
}

proof fn lemma_first_absent(all: Seq<Typewriter>, who: (Seq<char>, Seq<char>))
    requires
        forall|j: int| 0 <= j < all.len() ==> (#[trigger] all[j]).who.key() != who,
    ensures
        first_of(all, who) == all.len(),
    decreases all.len(),
{
    if all.len() > 0 {
        assert(all[0].who.key() != who);
        assert forall|j: int| 0 <= j < all.skip(1).len() implies (
        #[trigger] all.skip(1)[j]).who.key() != who by {
            assert(all[j + 1].who.key() != who);
        }
        lemma_first_absent(all.skip(1), who);
    }
}

proof fn lemma_first_is_first(all: Seq<Typewriter>, who: (Seq<char>, Seq<char>))
    ensures
        first_of(all, who) <= all.len(),
        first_of(all, who) < all.len() ==> all[first_of(all, who) as int].who.key() == who,
        forall|j: int| 0 <= j < first_of(all, who) ==> (#[trigger] all[j]).who.key() != who,
    decreases all.len(),
{
    if all.len() > 0 && all[0].who.key() != who {
        let rest = all.skip(1);
        lemma_first_is_first(rest, who);
        assert forall|j: int| 0 <= j < first_of(all, who) implies (#[trigger] all[j]).who.key()
            != who by {
            if j > 0 {
                assert(rest[j - 1].who.key() != who);
            }
        }
    }
}

/// Typewriters with the same owners in the same places are found in the
/// same places.
proof fn lemma_first_same_owners(
    a: Seq<Typewriter>,
    b: Seq<Typewriter>,
    who: (Seq<char>, Seq<char>),
)
    requires
        a.len() == b.len(),
        forall|j: int| 0 <= j < a.len() ==> (#[trigger] a[j]).who.key() == b[j].who.key(),
    ensures
        first_of(a, who) == first_of(b, who),
{
    lemma_first_is_first(a, who);
    let k = first_of(a, who) as int;
    if k < a.len() {
        assert forall|j: int| 0 <= j < k implies (#[trigger] b[j]).who.key() != who by {
            assert(a[j].who.key() != who);
        }
        assert(a[k].who.key() == b[k].who.key());
        lemma_first_found(b, who, k);
    } else {
        assert forall|j: int| 0 <= j < b.len() implies (#[trigger] b[j]).who.key() != who by {
            assert(a[j].who.key() != who);
        }
        lemma_first_absent(b, who);
    }
}

/// A typewriter added at the end is found there by its owner, if the owner
/// had none, and changes nothing for anyone else.
proof fn lemma_first_pushed(all: Seq<Typewriter>, added: Typewriter, who: (Seq<char>, Seq<char>))
    requires
        first_of(all, added.who.key()) == all.len(),
    ensures
        typed(all.push(added), who) == if who == added.who.key() {
            string_texts(added.letters@)
        } else {
            typed(all, who)
        },
{
    let after = all.push(added);
    lemma_first_is_first(all, who);
    let k = first_of(all, who) as int;
    if k < all.len() {
        assert forall|j: int| 0 <= j < k implies (#[trigger] after[j]).who.key() != who by {
            assert(after[j] == all[j]);
        }
        assert(after[k] == all[k]);
        lemma_first_found(after, who, k);
    } else if who == added.who.key() {
        assert forall|j: int| 0 <= j < all.len() implies (#[trigger] after[j]).who.key()
            != who by {
            assert(after[j] == all[j]);
        }
        lemma_first_found(after, who, all.len() as int);
    } else {
        assert forall|j: int| 0 <= j < after.len() implies (#[trigger] after[j]).who.key()
            != who by {
            if j < all.len() {
                assert(after[j] == all[j]);
            }
        }
        lemma_first_absent(after, who);
    }
}

impl TypewriterServiceImpl {
    /// Nothing typed by anyone.
    pub fn new() -> (service: Self)
        ensures
            service.typewriters@.len() == 0,
    {
        TypewriterServiceImpl { typewriters: Vec::new() }
    }

    fn position(&self, who: &ClientToken) -> (at: usize)
        ensures
            at == first_of(self.typewriters@, who.key()),
            at <= self.typewriters@.len(),
    {
        let mut at: usize = 0;
        while at < self.typewriters.len()
            invariant
                at <= self.typewriters@.len(),
                forall|j: int| 0 <= j < at ==> (#[trigger] self.typewriters@[j]).who.key()
                    != who.key(),
            decreases self.typewriters.len() - at,
        {
            if self.typewriters[at].who.same(who) {
                proof {
                    lemma_first_found(self.typewriters@, who.key(), at as int);
                }
                return at;
            }
            at += 1;
        }
        proof {
            lemma_first_absent(self.typewriters@, who.key());
        }
        at
    }

    /// Types `letter` for the client at `client` under `token`.
    pub fn write(&mut self, client: String, token: String, letter: String)
        ensures
            typed(final(self).typewriters@, (client@, token@)) == typed(
                old(self).typewriters@,
                (client@, token@),
            ).push(letter@),
            forall|who: (Seq<char>, Seq<char>)|
                who != (client@, token@) ==> typed(final(self).typewriters@, who) == typed(
                    old(self).typewriters@,
                    who,
                ),
    {
        let who = ClientToken::new(client, token);
        let at = self.position(&who);
        let ghost before = self.typewriters@;
        if at < self.typewriters.len() {
            let old_one = self.typewriters.remove(at);
            let mut letters = old_one.letters;
            let ghost had = letters@;
            letters.push(letter);
            let new_one = Typewriter { who: old_one.who, letters };
            self.typewriters.insert(at, new_one);
            proof {
                let after = self.typewriters@;
                assert(after =~= before.update(at as int, new_one));
                assert(string_texts(new_one.letters@) =~= string_texts(had).push(letter@));
                assert forall|other: (Seq<char>, Seq<char>)|
                    first_of(after, other) == first_of(before, other) by {
                    assert forall|j: int| 0 <= j < after.len() implies (
                    #[trigger] after[j]).who.key() == before[j].who.key() by {}
                    lemma_first_same_owners(after, before, other);
                }
                assert forall|other: (Seq<char>, Seq<char>)|
                    other != (client@, token@) implies typed(after, other) == typed(
                    before,
                    other,
                ) by {
                    lemma_first_is_first(before, other);
                    lemma_first_is_first(before, who.key());
                    let k = first_of(before, other) as int;
                    assert(first_of(after, other) == k);
                    if k < before.len() {
                        assert(k != at);
                        assert(after[k] == before[k]);
                    }
                }
                assert(first_of(after, who.key()) == first_of(before, who.key()));
            }
        } else {
            let mut letters: Vec<String> = Vec::new();
            letters.push(letter);
            let new_one = Typewriter { who, letters };
            self.typewriters.push(new_one);
            proof {
                assert(string_texts(new_one.letters@) =~= Seq::<Seq<char>>::empty().push(letter@));
                assert forall|other: (Seq<char>, Seq<char>)|
                    typed(before.push(new_one), other) == if other == new_one.who.key() {
                        string_texts(new_one.letters@)
                    } else {
                        typed(before, other)
                    } by {
                    lemma_first_pushed(before, new_one, other);
                }
            }
        }
    }

    /// Hands out what the client at `client` has typed under `token` since
    /// it was last read, as one text, and starts it afresh.
    pub fn read(&mut self, client: String, token: String) -> (content: String)
        ensures
            content@ == joined(typed(old(self).typewriters@, (client@, token@))),
            typed(final(self).typewriters@, (client@, token@)) == Seq::<Seq<char>>::empty(),
            forall|who: (Seq<char>, Seq<char>)|
                who != (client@, token@) ==> typed(final(self).typewriters@, who) == typed(
                    old(self).typewriters@,
                    who,
                ),
    {
        let who = ClientToken::new(client, token);
        let at = self.position(&who);
        let ghost before = self.typewriters@;
        if at < self.typewriters.len() {
            let old_one = self.typewriters.remove(at);
            let content = join_letters(&old_one.letters);
            let new_one = Typewriter { who: old_one.who, letters: Vec::new() };
            self.typewriters.insert(at, new_one);
            proof {
                let after = self.typewriters@;
                assert(after =~= before.update(at as int, new_one));
                assert(string_texts(new_one.letters@) =~= Seq::<Seq<char>>::empty());
                assert forall|other: (Seq<char>, Seq<char>)|
                    first_of(after, other) == first_of(before, other) by {
                    assert forall|j: int| 0 <= j < after.len() implies (
                    #[trigger] after[j]).who.key() == before[j].who.key() by {}
                    lemma_first_same_owners(after, before, other);
                }
                assert forall|other: (Seq<char>, Seq<char>)|
                    other != (client@, token@) implies typed(after, other) == typed(
                    before,
                    other,
                ) by {
                    lemma_first_is_first(before, other);
                    lemma_first_is_first(before, who.key());
                    let k = first_of(before, other) as int;
                    assert(first_of(after, other) == k);
                    if k < before.len() {
                        assert(k != at);
                        assert(after[k] == before[k]);
                    }
                }
                assert(first_of(after, who.key()) == first_of(before, who.key()));
            }
            content
        } else {
            String::new()
        }
    }
}

/// The letters one after the other.
pub fn join_letters(letters: &Vec<String>) -> (text: String)
    ensures
        text@ == joined(string_texts(letters@)),
{
    let mut out: Vec<char> = Vec::new();
    let ghost all = string_texts(letters@);
    let mut i: usize = 0;
    assert(all.take(0) =~= Seq::<Seq<char>>::empty());
    while i < letters.len()
        invariant
            i <= letters@.len(),
            all == string_texts(letters@),
            out@ == joined(all.take(i as int)),
        decreases letters.len() - i,
    {
        proof {
            assert(all.take(i + 1).drop_last() =~= all.take(i as int));
            assert(all.take(i + 1).last() == letters@[i as int]@);
        }
        append_str(&mut out, letters[i].as_str());
        i += 1;
    }
    assert(all.take(letters@.len() as int) =~= all);
    string_of(out.as_slice())
}

} // verus!
