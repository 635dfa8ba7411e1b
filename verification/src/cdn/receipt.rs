//! Receipts: short-lived notes that one user leaves for another in a room,
//! asking for a song.

use vstd::prelude::*;

use crate::types::timedmap::{live, Cleanup, TimedMap, Value};
use crate::types::{SongId, UuidString};

verus! {

pub type UserId = String;

pub type ReceiptId = UuidString;

pub type RoomId = String;

/// One receipt. It names its song by id or by address.
#[derive(Debug)]
pub struct Receipt {
    pub receipt_id: ReceiptId,
    pub room_id: RoomId,
    pub target: UserId,
    pub created_at: i64,
    pub expires_at: i64,
    pub song_id: Option<SongId>,
    pub song_url: Option<String>,
    pub sender: Option<UserId>,
    pub message: Option<String>,
}

/// The text that an optional string holds, if it holds one.
pub open spec fn opt_text(s: Option<String>) -> Option<Seq<char>> {
    match s {
        Some(text) => Some(text@),
        None => None,
    }
}

/// A copy of an optional string.
pub fn copy_opt(s: &Option<String>) -> (r: Option<String>)
    ensures
        opt_text(r) == opt_text(*s),
{
    match s {
        Some(text) => Some(text.clone()),
        None => None,
    }
}

impl Receipt {
    /// Whether the two receipts say the same.
    pub open spec fn same(&self, other: &Receipt) -> bool {
        &&& self.receipt_id@ == other.receipt_id@
        &&& self.room_id@ == other.room_id@
        &&& self.target@ == other.target@
        &&& self.created_at == other.created_at
        &&& self.expires_at == other.expires_at
        &&& self.song_id == other.song_id
        &&& opt_text(self.song_url) == opt_text(other.song_url)
        &&& opt_text(self.sender) == opt_text(other.sender)
        &&& opt_text(self.message) == opt_text(other.message)
    }
}

impl Clone for Receipt {
    fn clone(&self) -> (r: Self)
        ensures
            self.same(&r),
    {
        Receipt {
            receipt_id: self.receipt_id.clone(),
            room_id: self.room_id.clone(),
            target: self.target.clone(),
            created_at: self.created_at,
            expires_at: self.expires_at,
            song_id: self.song_id,
            song_url: copy_opt(&self.song_url),
            sender: copy_opt(&self.sender),
            message: copy_opt(&self.message),
        }
    }
}

/// The song that a receipt asks for.
#[derive(Debug)]
pub enum SongRef {
    Id(SongId),
    Url(String),
}

/// Why a receipt was not made.
#[derive(Debug, Clone, Copy, PartialEq, Eq, Structural)]
pub enum ReceiptError {
    /// The sender has as many receipts for this user in the room as one
    /// sender may have.
    TooManyReceipts,
    /// The sender has already asked this user for the song with this id.
    DuplicateSong,
    /// The sender has already asked this user for the song at this address.
    DuplicateUrl,
    /// A receipt of the room has the id proposed for the new one.
    IdTaken,
}

/// The receipts of all rooms, each kept until it expires.
pub struct ReceiptServiceImpl {
    pub receipts: TimedMap<Receipt>,
    pub max_receipts_per_user_per_sender: usize,
    pub default_expire: u64,
}

/// Whether two optional strings hold the same text, or both none.
pub fn same_opt(a: &Option<String>, b: &Option<String>) -> (r: bool)
    ensures
        r == (opt_text(*a) == opt_text(*b)),
{
    match (a, b) {
        (Some(x), Some(y)) => *x == *y,
        (None, None) => true,
        _ => false,
    }
}

/// The order in which receipts are listed: those with a sender before those
/// without, and older before newer among each.
pub open spec fn listed_before(a: Receipt, b: Receipt) -> bool {
    if a.sender is Some != b.sender is Some {
        a.sender is Some
    } else {
        a.created_at < b.created_at
    }
}

/// Whether `out` is in listing order.
pub open spec fn in_order(out: Seq<Receipt>) -> bool {
    forall|a: int, b: int| 0 <= a < b < out.len() ==> !listed_before(#[trigger] out[b], #[trigger] out[a])
}

/// Whether `out` lists the receipts of the room `room` among `store`, each
/// once, `keys` being the keys they are stored under.
pub open spec fn lists(
    store: Map<Seq<char>, Value<Receipt>>,
    room: Seq<char>,
    keys: Seq<Seq<char>>,
    out: Seq<Receipt>,
) -> bool {
    &&& keys.len() == out.len()
    &&& forall|a: int, b: int| 0 <= a < b < keys.len() ==> #[trigger] keys[a] != #[trigger] keys[b]
    &&& forall|a: int|
        0 <= a < keys.len() ==> store.contains_key(#[trigger] keys[a]) && store[keys[a]].value.same(
            &out[a],
        ) && out[a].room_id@ == room
    &&& forall|k: Seq<char>|
        store.contains_key(k) && (#[trigger] store[k]).value.room_id@ == room ==> keys.contains(k)
}

/// Whether a receipt went from `sender` to `target`.
pub open spec fn between(r: Receipt, target: Seq<char>, sender: Option<Seq<char>>) -> bool {
    r.target@ == target && opt_text(r.sender) == sender
}

fn comes_before(a: &Receipt, b: &Receipt) -> (r: bool)
    ensures
        r == listed_before(*a, *b),
{
    if a.sender.is_some() != b.sender.is_some() {
        a.sender.is_some()
    } else {
        a.created_at < b.created_at
    }
}

impl ReceiptServiceImpl {
    /// A service without receipts. One sender may have `max` receipts for
    /// one user in a room; a receipt lives for `default_expire`.
    pub fn new(max_receipts_per_user_per_sender: usize, default_expire: u64) -> (service: Self)
        ensures
            service.receipts@ == Map::<Seq<char>, Value<Receipt>>::empty(),
            service.max_receipts_per_user_per_sender == max_receipts_per_user_per_sender,
            service.default_expire == default_expire,
    {
        ReceiptServiceImpl {
            receipts: TimedMap::new(),
            max_receipts_per_user_per_sender,
            default_expire,
        }
    }

    /// The receipts of a room that have not expired at `now`, each once, in
    /// listing order.
    pub fn receipts(&self, room_id: &RoomId, now: u64) -> (out: Vec<Receipt>)
        ensures
            in_order(out@),
            exists|keys: Seq<Seq<char>>| lists(live(self.receipts@, now), room_id@, keys, out@),
    {
        let snap = self.receipts.snapshot(now);
        let ghost store = live(self.receipts@, now);
        let mut out: Vec<Receipt> = Vec::new();
        let ghost mut keys: Seq<Seq<char>> = Seq::empty();
        let mut i: usize = 0;
        while i < snap.len()
            invariant
                i <= snap@.len(),
                store == live(self.receipts@, now),
                forall|a: int|
                    0 <= a < snap@.len() ==> store.contains_key((#[trigger] snap@[a]).0@) && cloned(
                        self.receipts@[snap@[a].0@].value,
                        snap@[a].1,
                    ),
                forall|a: int, b: int|
                    0 <= a < b < snap@.len() ==> (#[trigger] snap@[a]).0@ != (#[trigger] snap@[b]).0@,
                in_order(out@),
                keys.len() == out@.len(),
                forall|a: int, b: int|
                    0 <= a < b < keys.len() ==> #[trigger] keys[a] != #[trigger] keys[b],
                forall|a: int|
                    0 <= a < keys.len() ==> store.contains_key(#[trigger] keys[a])
                        && store[keys[a]].value.same(&out@[a]) && out@[a].room_id@ == room_id@,
                forall|a: int|
                    0 <= a < keys.len() ==> exists|j: int|
                        0 <= j < i && (#[trigger] snap@[j]).0@ == #[trigger] keys[a],
                forall|j: int|
                    0 <= j < i && store[(#[trigger] snap@[j]).0@].value.room_id@ == room_id@
                        ==> keys.contains(snap@[j].0@),
            decreases snap.len() - i,
        {
            let ghost key = snap@[i as int].0@;
            assert(store.contains_key(key));
            assert(store[key].value.same(&snap@[i as int].1));
            if snap[i].1.room_id == *room_id {
                let item = snap[i].1.clone();
                let mut p: usize = 0;
                while p < out.len() && !comes_before(&item, &out[p])
                    invariant
                        p <= out@.len(),
                        forall|j: int| 0 <= j < p ==> !listed_before(item, #[trigger] out@[j]),
                    decreases out.len() - p,
                {
                    p += 1;
                }
                let ghost before = out@;
                let ghost before_keys = keys;
                out.insert(p, item);
                proof {
                    keys = before_keys.insert(p as int, key);
                    assert forall|a: int, b: int| 0 <= a < b < out@.len() implies !listed_before(
                        #[trigger] out@[b],
                        #[trigger] out@[a],
                    ) by {
                        if a == p {
                            assert(out@[b] == before[b - 1]);
                            if p < before.len() {
                                assert(listed_before(item, before[p as int]));
                                if p < b - 1 {
                                    assert(!listed_before(before[b - 1], before[p as int]));
                                }
                            }
                        } else if b == p {
                            assert(out@[a] == before[a]);
                        } else {
                            let x = if a < p { a } else { a - 1 };
                            let y = if b < p { b } else { b - 1 };
                            assert(out@[a] == before[x]);
                            assert(out@[b] == before[y]);
                        }
                    }
                    assert forall|a: int| 0 <= a < keys.len() implies store.contains_key(
                        #[trigger] keys[a],
                    ) && store[keys[a]].value.same(&out@[a]) && out@[a].room_id@ == room_id@
                        && exists|j: int|
                        0 <= j < i + 1 && (#[trigger] snap@[j]).0@ == keys[a] by {
                        if a == p {
                            assert(snap@[i as int].0@ == keys[a]);
                        } else {
                            let x = if a < p { a } else { a - 1 };
                            assert(keys[a] == before_keys[x]);
                            assert(out@[a] == before[x]);
                            let j = choose|j: int|
                                0 <= j < i && (#[trigger] snap@[j]).0@ == before_keys[x];
                            assert(snap@[j].0@ == keys[a]);
                        }
                    }
                    assert forall|a: int, b: int| 0 <= a < b < keys.len() implies #[trigger] keys[a]
                        != #[trigger] keys[b] by {
                        let x = if a < p { a } else { a - 1 };
                        let y = if b < p { b } else { b - 1 };
                        if a == p {
                            assert(keys[b] == before_keys[y]);
                            let j = choose|j: int|
                                0 <= j < i && (#[trigger] snap@[j]).0@ == before_keys[y];
                            assert(snap@[j].0@ != snap@[i as int].0@);
                        } else if b == p {
                            assert(keys[a] == before_keys[x]);
                            let j = choose|j: int|
                                0 <= j < i && (#[trigger] snap@[j]).0@ == before_keys[x];
                            assert(snap@[j].0@ != snap@[i as int].0@);
                        } else {
                            assert(keys[a] == before_keys[x]);
                            assert(keys[b] == before_keys[y]);
                        }
                    }
                    assert forall|j: int|
                        0 <= j < i + 1 && store[(#[trigger] snap@[j]).0@].value.room_id@
                            == room_id@ implies keys.contains(snap@[j].0@) by {
                        if j < i {
                            let x = choose|x: int|
                                0 <= x < before_keys.len() && before_keys[x] == snap@[j].0@;
                            let a = if x < p { x } else { x + 1 };
                            assert(keys[a] == before_keys[x]);
                        } else {
                            assert(keys[p as int] == key);
                        }
                    }
                }
            } else {
                proof {
                    assert forall|a: int| 0 <= a < keys.len() implies exists|j: int|
                        0 <= j < i + 1 && (#[trigger] snap@[j]).0@ == #[trigger] keys[a] by {
                        let j = choose|j: int| 0 <= j < i && (#[trigger] snap@[j]).0@ == keys[a];
                        assert(snap@[j].0@ == keys[a]);
                    }
                }
            }
            i += 1;
        }
        proof {
            assert forall|k: Seq<char>|
                store.contains_key(k) && (#[trigger] store[k]).value.room_id@
                    == room_id@ implies keys.contains(k) by {
                let a = choose|a: int| 0 <= a < snap@.len() && (#[trigger] snap@[a]).0@ == k;
                assert(store[snap@[a].0@].value.room_id@ == room_id@);
            }
            assert(lists(store, room_id@, keys, out@));
        }
        out
    }
}

/// Whether a receipt of the room `room` among `store` meets `p`.
pub open spec fn any_in_room(
    store: Map<Seq<char>, Value<Receipt>>,
    room: Seq<char>,
    p: spec_fn(Receipt) -> bool,
) -> bool {
    exists|k: Seq<char>|
        #[trigger] store.contains_key(k) && store[k].value.room_id@ == room && p(store[k].value)
}

/// Whether `keys` holds, each once, the keys of the receipts of the room
/// `room` among `store` that meet `p`.
pub open spec fn counts(
    store: Map<Seq<char>, Value<Receipt>>,
    room: Seq<char>,
    p: spec_fn(Receipt) -> bool,
    keys: Seq<Seq<char>>,
) -> bool {
    &&& forall|a: int, b: int| 0 <= a < b < keys.len() ==> #[trigger] keys[a] != #[trigger] keys[b]
    &&& forall|k: Seq<char>|
        keys.contains(k) <==> #[trigger] store.contains_key(k) && store[k].value.room_id@ == room
            && p(store[k].value)
}

/// Went from `sender` to `target`.
pub open spec fn sent(target: Seq<char>, sender: Option<Seq<char>>) -> spec_fn(Receipt) -> bool {
    |r: Receipt| between(r, target, sender)
}

/// Went from `sender` to `target` and asks for the song `song`.
pub open spec fn sent_asking(target: Seq<char>, sender: Option<Seq<char>>, song: SongRef) -> spec_fn(
    Receipt,
) -> bool {
    |r: Receipt|
        between(r, target, sender) && match song {
            SongRef::Id(id) => r.song_id == Some(id),
            SongRef::Url(url) => opt_text(r.song_url) == Some(url@),
        }
}

/// Has the id `receipt_id`.
pub open spec fn named(receipt_id: Seq<char>) -> spec_fn(Receipt) -> bool {
    |r: Receipt| r.receipt_id@ == receipt_id
}

/// Why a receipt is not made, if it is not: the sender already has `count`
/// receipts for the target in the room, of which at most `max` are allowed
/// once there is one; or has one asking for the same song; or the id
/// proposed is taken in the room.
pub open spec fn refusal(
    store: Map<Seq<char>, Value<Receipt>>,
    room: Seq<char>,
    target: Seq<char>,
    sender: Option<Seq<char>>,
    song: SongRef,
    receipt_id: Seq<char>,
    count: nat,
    max: nat,
) -> Option<ReceiptError> {
    if count > 0 && count >= max {
        Some(ReceiptError::TooManyReceipts)
    } else if any_in_room(store, room, sent_asking(target, sender, song)) {
        Some(
            match song {
                SongRef::Id(_) => ReceiptError::DuplicateSong,
                SongRef::Url(_) => ReceiptError::DuplicateUrl,
            },
        )
    } else if any_in_room(store, room, named(receipt_id)) {
        Some(ReceiptError::IdTaken)
    } else {
        None
    }
}

/// Whether `p` cannot tell two receipts apart that say the same.
pub open spec fn by_content(p: spec_fn(Receipt) -> bool) -> bool {
    forall|a: Receipt, b: Receipt| a.same(&b) ==> #[trigger] p(a) == #[trigger] p(b)
}

proof fn lemma_any(
    store: Map<Seq<char>, Value<Receipt>>,
    room: Seq<char>,
    keys: Seq<Seq<char>>,
    listed: Seq<Receipt>,
    p: spec_fn(Receipt) -> bool,
)
    requires
        lists(store, room, keys, listed),
        by_content(p),
    ensures
        any_in_room(store, room, p) <==> exists|a: int|
            0 <= a < listed.len() && p(#[trigger] listed[a]),
{
    if any_in_room(store, room, p) {
        let k = choose|k: Seq<char>|
            #[trigger] store.contains_key(k) && store[k].value.room_id@ == room && p(
                store[k].value,
            );
        assert(store[k].value.room_id@ == room);
        assert(keys.contains(k));
        let a = choose|a: int| 0 <= a < keys.len() && keys[a] == k;
        assert(store[keys[a]].value.same(&listed[a]));
        assert(p(listed[a]));
    }
    if exists|a: int| 0 <= a < listed.len() && p(#[trigger] listed[a]) {
        let a = choose|a: int| 0 <= a < listed.len() && p(#[trigger] listed[a]);
        assert(store.contains_key(keys[a]));
        assert(store[keys[a]].value.same(&listed[a]));
        assert(p(store[keys[a]].value));
    }
}

proof fn lemma_counts(
    store: Map<Seq<char>, Value<Receipt>>,
    room: Seq<char>,
    keys: Seq<Seq<char>>,
    listed: Seq<Receipt>,
    p: spec_fn(Receipt) -> bool,
    picked: Seq<int>,
)
    requires
        lists(store, room, keys, listed),
        by_content(p),
        forall|x: int| 0 <= x < picked.len() ==> 0 <= #[trigger] picked[x] < listed.len() && p(
            listed[picked[x]],
        ),
        forall|x: int, y: int|
            0 <= x < y < picked.len() ==> #[trigger] picked[x] < #[trigger] picked[y],
        forall|a: int| 0 <= a < listed.len() && p(#[trigger] listed[a]) ==> picked.contains(a),
    ensures
        counts(store, room, p, Seq::new(picked.len(), |x: int| keys[picked[x]])),
{
    let mine = Seq::new(picked.len(), |x: int| keys[picked[x]]);
    assert forall|a: int, b: int| 0 <= a < b < mine.len() implies #[trigger] mine[a]
        != #[trigger] mine[b] by {
        assert(picked[a] < picked[b]);
        assert(keys[picked[a]] != keys[picked[b]]);
    }
    assert forall|k: Seq<char>|
        mine.contains(k) <==> #[trigger] store.contains_key(k) && store[k].value.room_id@ == room
            && p(store[k].value) by {
        if mine.contains(k) {
            let x = choose|x: int| 0 <= x < mine.len() && mine[x] == k;
            let a = picked[x];
            assert(store.contains_key(keys[a]));
            assert(store[keys[a]].value.same(&listed[a]));
            assert(p(listed[a]));
        }
        if store.contains_key(k) && store[k].value.room_id@ == room && p(store[k].value) {
            assert(store[k].value.room_id@ == room);
            assert(keys.contains(k));
            let a = choose|a: int| 0 <= a < keys.len() && keys[a] == k;
            assert(store[keys[a]].value.same(&listed[a]));
            assert(p(listed[a]));
            assert(picked.contains(a));
            let x = choose|x: int| 0 <= x < picked.len() && picked[x] == a;
            assert(mine[x] == k);
        }
    }
}

impl ReceiptServiceImpl {
    /// Makes a receipt in the room `room_id` from `sender` to `target`,
    /// with the id `receipt_id`, at the time `created_at` of the calendar
    /// and `now` of the clock that the receipts expire by.
    ///
    /// It is refused where the sender already has receipts for the target
    /// in the room, as many as one sender may have, or one that asks for
    /// the same song; and where the id is taken in the room, in which case
    /// the caller proposes another. Else the receipt is stored until
    /// `default_expire` has passed, and a copy handed back.
    pub fn create_receipt(
        &mut self,
        room_id: RoomId,
        target: UserId,
        song: SongRef,
        sender: Option<UserId>,
        message: Option<String>,
        receipt_id: ReceiptId,
        created_at: i64,
        now: u64,
    ) -> (r: Result<Receipt, ReceiptError>)
        requires
            now + old(self).default_expire <= u64::MAX,
            old(self).default_expire <= i64::MAX,
            created_at + old(self).default_expire <= i64::MAX,
        ensures
            final(self).max_receipts_per_user_per_sender == old(
                self,
            ).max_receipts_per_user_per_sender,
            final(self).default_expire == old(self).default_expire,
            exists|mine: Seq<Seq<char>>|
                counts(
                    live(old(self).receipts@, now),
                    room_id@,
                    sent(target@, opt_text(sender)),
                    mine,
                ) && match r {
                    Err(e) => Some(e) == refusal(
                        live(old(self).receipts@, now),
                        room_id@,
                        target@,
                        opt_text(sender),
                        song,
                        receipt_id@,
                        mine.len(),
                        old(self).max_receipts_per_user_per_sender as nat,
                    ),
                    Ok(_) => refusal(
                        live(old(self).receipts@, now),
                        room_id@,
                        target@,
                        opt_text(sender),
                        song,
                        receipt_id@,
                        mine.len(),
                        old(self).max_receipts_per_user_per_sender as nat,
                    ) is None,
                },
            r is Err ==> final(self).receipts@ == old(self).receipts@,
            r matches Ok(receipt) ==> {
                &&& receipt.receipt_id@ == receipt_id@
                &&& receipt.room_id@ == room_id@
                &&& receipt.target@ == target@
                &&& receipt.created_at == created_at
                &&& receipt.expires_at == created_at + old(self).default_expire
                &&& receipt.song_id == match song {
                    SongRef::Id(id) => Some(id),
                    SongRef::Url(_) => None,
                }
                &&& opt_text(receipt.song_url) == match song {
                    SongRef::Id(_) => None,
                    SongRef::Url(url) => Some(url@),
                }
                &&& opt_text(receipt.sender) == opt_text(sender)
                &&& opt_text(receipt.message) == opt_text(message)
                &&& final(self).receipts@.contains_key(receipt_id@)
                &&& final(self).receipts@[receipt_id@].value.same(&receipt)
                &&& final(self).receipts@[receipt_id@].expires == now + old(self).default_expire
                &&& final(self).receipts@.remove(receipt_id@) == old(self).receipts@.remove(
                    receipt_id@,
                )
            },
    {
        let listed = self.receipts(&room_id, now);
        let ghost store = live(self.receipts@, now);
        let ghost keys = choose|keys: Seq<Seq<char>>| lists(store, room_id@, keys, listed@);
        let ghost from = sent(target@, opt_text(sender));
        let ghost asking = sent_asking(target@, opt_text(sender), song);
        let ghost called = named(receipt_id@);
        let mut count: usize = 0;
        let mut duplicate = false;
        let mut taken = false;
        let ghost mut picked: Seq<int> = Seq::empty();
        let mut i: usize = 0;
        while i < listed.len()
            invariant
                i <= listed@.len(),
                count == picked.len(),
                count <= i,
                from == sent(target@, opt_text(sender)),
                asking == sent_asking(target@, opt_text(sender), song),
                called == named(receipt_id@),
                forall|x: int|
                    0 <= x < picked.len() ==> 0 <= #[trigger] picked[x] < i && from(
                        listed@[picked[x]],
                    ),
                forall|x: int, y: int|
                    0 <= x < y < picked.len() ==> #[trigger] picked[x] < #[trigger] picked[y],
                forall|a: int| 0 <= a < i && from(#[trigger] listed@[a]) ==> picked.contains(a),
                duplicate <==> exists|a: int| 0 <= a < i && asking(#[trigger] listed@[a]),
                taken <==> exists|a: int| 0 <= a < i && called(#[trigger] listed@[a]),
            decreases listed.len() - i,
        {
            let item = &listed[i];
            let ghost earlier = picked;
            let mine = item.target == target && same_opt(&item.sender, &sender);
            assert(mine == from(*item));
            if mine {
                count += 1;
                proof {
                    picked = earlier.push(i as int);
                    assert forall|a: int|
                        0 <= a < i + 1 && from(#[trigger] listed@[a]) implies picked.contains(
                        a,
                    ) by {
                        if a < i {
                            let x = choose|x: int| 0 <= x < earlier.len() && earlier[x] == a;
                            assert(picked[x] == a);
                        } else {
                            assert(picked[earlier.len() as int] == a);
                        }
                    }
                }
                let same_song = match &song {
                    SongRef::Id(id) => match item.song_id {
                        Some(have) => have == *id,
                        None => false,
                    },
                    SongRef::Url(url) => match &item.song_url {
                        Some(have) => *have == *url,
                        None => false,
                    },
                };
                assert(same_song == asking(*item));
                if same_song {
                    duplicate = true;
                }
            } else {
                assert(!asking(*item));
            }
            if item.receipt_id == receipt_id {
                taken = true;
            }
            assert(item.receipt_id@ == receipt_id@ <==> called(*item));
            proof {
                if exists|a: int| 0 <= a < i + 1 && asking(#[trigger] listed@[a]) {
                    let a = choose|a: int| 0 <= a < i + 1 && asking(#[trigger] listed@[a]);
                    if a < i {
                        assert(asking(listed@[a]));
                    }
                }
                if exists|a: int| 0 <= a < i + 1 && called(#[trigger] listed@[a]) {
                    let a = choose|a: int| 0 <= a < i + 1 && called(#[trigger] listed@[a]);
                    if a < i {
                        assert(called(listed@[a]));
                    }
                }
            }
            i += 1;
        }
        proof {
            assert(by_content(from));
            assert(by_content(asking));
            assert(by_content(called));
            lemma_any(store, room_id@, keys, listed@, asking);
            lemma_any(store, room_id@, keys, listed@, called);
            lemma_counts(store, room_id@, keys, listed@, from, picked);
        }
        let ghost mine = Seq::new(picked.len(), |x: int| keys[picked[x]]);
        assert(counts(store, room_id@, from, mine));
        assert(mine.len() == count);
        if count > 0 && count >= self.max_receipts_per_user_per_sender {
            return Err(ReceiptError::TooManyReceipts);
        }
        if duplicate {
            return Err(
                match song {
                    SongRef::Id(_) => ReceiptError::DuplicateSong,
                    SongRef::Url(_) => ReceiptError::DuplicateUrl,
                },
            );
        }
        if taken {
            return Err(ReceiptError::IdTaken);
        }
        let (song_id, song_url) = match song {
            SongRef::Id(id) => (Some(id), None),
            SongRef::Url(url) => (None, Some(url)),
        };
        let receipt = Receipt {
            receipt_id: receipt_id.clone(),
            room_id,
            target,
            created_at,
            expires_at: created_at + self.default_expire as i64,
            song_id,
            song_url,
            sender,
            message,
        };
        let copy = receipt.clone();
        let ghost before = self.receipts@;
        self.receipts.insert(receipt_id, receipt, self.default_expire, now);
        assert(self.receipts@.remove(receipt_id@) =~= before.remove(receipt_id@));
        Ok(copy)
    }
}

impl Cleanup for ReceiptServiceImpl {
    /// Removes the receipts that have expired at `now`.
    fn cleanup(&mut self, now: u64)
        ensures
            final(self).receipts@ == live(old(self).receipts@, now),
            final(self).max_receipts_per_user_per_sender == old(
                self,
            ).max_receipts_per_user_per_sender,
            final(self).default_expire == old(self).default_expire,
    {
        self.receipts.sweep(now);
    }
}

} // verus!
