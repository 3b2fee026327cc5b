//! Channels, and the order in which they are listed.

use crate::text;
use crate::text::same_text;
use vstd::prelude::*;

verus! {

/// A television channel.
#[derive(Debug)]
pub struct Channel {
    pub id: String,
    pub name: String,
    pub logo_url: Option<String>,
    /// The number that the operator gives it.
    pub number: Option<u32>,
    /// The name of its category.
    pub category: String,
    /// Whether the subscription lacks it.
    pub locked: bool,
}

/// What is known of a channel.
pub struct ChannelView {
    pub id: Seq<char>,
    pub name: Seq<char>,
    pub logo_url: Option<Seq<char>>,
    pub number: Option<u32>,
    pub category: Seq<char>,
    pub locked: bool,
}

impl View for Channel {
    type V = ChannelView;

    open spec fn view(&self) -> ChannelView {
        ChannelView {
            id: self.id@,
            name: self.name@,
            logo_url: text::opt_text(self.logo_url),
            number: self.number,
            category: self.category@,
            locked: self.locked,
        }
    }
}

impl Clone for Channel {
    fn clone(&self) -> (r: Self)
        ensures
            r@ == self@,
    {
        Channel {
            id: self.id.clone(),
            name: self.name.clone(),
            logo_url: match &self.logo_url {
                Some(u) => Some(u.clone()),
                None => None,
            },
            number: self.number,
            category: self.category.clone(),
            locked: self.locked,
        }
    }
}

/// The channels of a list.
pub open spec fn views(channels: Seq<Channel>) -> Seq<ChannelView> {
    channels.map_values(|c: Channel| c@)
}

/// What a channel is listed by: its number, or the largest one where it has none.
pub open spec fn rank(c: ChannelView) -> int {
    match c.number {
        Some(n) => n as int,
        None => u32::MAX as int,
    }
}

/// The channels of one rank, in their order.
pub open spec fn of_rank(channels: Seq<ChannelView>, k: int) -> Seq<ChannelView> {
    channels.filter(|c: ChannelView| rank(c) == k)
}

/// Whether `after` lists the channels of `before` by rank, those of equal rank in the
/// order they had.
pub open spec fn listed(before: Seq<ChannelView>, after: Seq<ChannelView>) -> bool {
    &&& forall|i: int, j: int|
        0 <= i <= j < after.len() ==> rank(#[trigger] after[i]) <= rank(#[trigger] after[j])
    &&& forall|k: int| #[trigger] of_rank(after, k) == of_rank(before, k)
}

/// Channels all of another rank leave nothing.
proof fn no_such_rank(channels: Seq<ChannelView>, k: int)
    requires
        forall|i: int| 0 <= i < channels.len() ==> rank(#[trigger] channels[i]) != k,
    ensures
        of_rank(channels, k) == Seq::<ChannelView>::empty(),
    decreases channels.len(),
{
    reveal(Seq::filter);
    if channels.len() > 0 {
        assert(rank(channels.last()) != k);
        no_such_rank(channels.drop_last(), k);
    }
}

/// A channel put before all that do not rank below it stands first among its equals.
proof fn put_in_front(sorted: Seq<ChannelView>, c: ChannelView, at: int, k: int)
    requires
        0 <= at <= sorted.len(),
        forall|i: int| 0 <= i < at ==> rank(#[trigger] sorted[i]) < rank(c),
    ensures
        of_rank(sorted.insert(at, c), k) == of_rank(seq![c] + sorted, k),
{
    let p = |c: ChannelView| rank(c) == k;
    let a = sorted.take(at);
    let b = sorted.skip(at);
    let one = seq![c];
    assert(sorted.insert(at, c) =~= (a + one) + b);
    assert(sorted =~= a + b);
    Seq::filter_distributes_over_add(a + one, b, p);
    Seq::filter_distributes_over_add(a, one, p);
    Seq::filter_distributes_over_add(one, sorted, p);
    Seq::filter_distributes_over_add(a, b, p);
    if k == rank(c) {
        assert forall|i: int| 0 <= i < a.len() implies rank(#[trigger] a[i]) != k by {
            assert(a[i] == sorted[i]);
        }
        no_such_rank(a, k);
        assert((of_rank(a, k) + one.filter(p)) + of_rank(b, k) =~= one.filter(p) + (of_rank(a, k)
            + of_rank(b, k)));
    } else {
        no_such_rank(one, k);
        assert((of_rank(a, k) + one.filter(p)) + of_rank(b, k) =~= one.filter(p) + (of_rank(a, k)
            + of_rank(b, k)));
    }
}

/// A channel put behind those that rank below it, and before the others, keeps the order.
proof fn stays_sorted(sorted: Seq<ChannelView>, c: ChannelView, at: int)
    requires
        0 <= at <= sorted.len(),
        forall|i: int, j: int|
            0 <= i <= j < sorted.len() ==> rank(#[trigger] sorted[i]) <= rank(
                #[trigger] sorted[j],
            ),
        forall|i: int| 0 <= i < at ==> rank(#[trigger] sorted[i]) < rank(c),
        at < sorted.len() ==> rank(sorted[at]) >= rank(c),
    ensures
        forall|i: int, j: int|
            0 <= i <= j < sorted.len() + 1 ==> rank(#[trigger] sorted.insert(at, c)[i]) <= rank(
                #[trigger] sorted.insert(at, c)[j],
            ),
{
    let after = sorted.insert(at, c);
    assert forall|i: int, j: int| 0 <= i <= j < after.len() implies rank(#[trigger] after[i])
        <= rank(#[trigger] after[j]) by {
        if at < sorted.len() && j > at {
            assert(after[j] == sorted[j - 1]);
            assert(rank(sorted[at]) <= rank(sorted[j - 1]));
        }
        if i != at && j != at {
            let a = if i < at { i } else { i - 1 };
            let b = if j < at { j } else { j - 1 };
            assert(after[i] == sorted[a]);
            assert(after[j] == sorted[b]);
        } else if i < at {
            assert(after[i] == sorted[i]);
        }
    }
}

/// What a channel is listed by.
fn rank_of(c: &Channel) -> (r: u32)
    ensures
        r == rank(c@),
{
    match c.number {
        Some(n) => n,
        None => u32::MAX,
    }
}

/// The channels by number, those without one last.
pub fn sort_by_number(channels: Vec<Channel>) -> (r: Vec<Channel>)
    ensures
        listed(views(channels@), views(r@)),
{
    let ghost before = views(channels@);
    let mut rest: Vec<Channel> = channels;
    let mut r: Vec<Channel> = Vec::new();
    assert(before.skip(before.len() as int) =~= views(r@));
    assert(views(rest@) =~= before.take(rest@.len() as int));
    loop
        invariant
            before == views(channels@),
            rest@.len() <= before.len(),
            views(rest@) == before.take(rest@.len() as int),
            listed(before.skip(rest@.len() as int), views(r@)),
        decreases rest@.len(),
    {
        let ghost n = rest@.len() as int;
        let ghost waiting = rest@;
        match rest.pop() {
            None => {
                assert(before.skip(0) =~= before);
                return r;
            },
            Some(c) => {
                let mut at: usize = 0;
                while at < r.len() && rank_of(&r[at]) < rank_of(&c)
                    invariant
                        at <= r@.len(),
                        forall|i: int| 0 <= i < at ==> rank((#[trigger] r@[i])@) < rank(c@),
                    decreases r@.len() - at,
                {
                    at += 1;
                }
                let ghost sorted = views(r@);
                r.insert(at, c);
                proof {
                    let later = before.skip(n);
                    let now = views(r@);
                    assert(now =~= sorted.insert(at as int, c@));
                    assert(views(waiting)[n - 1] == c@);
                    assert(views(rest@) =~= before.take(n - 1));
                    assert(before.skip(n - 1) =~= seq![c@] + later);
                    assert forall|i: int| 0 <= i < at implies rank(#[trigger] sorted[i]) < rank(
                        c@,
                    ) by {
                        assert(r@[i]@ == sorted[i]);
                    }
                    assert forall|k: int| #[trigger] of_rank(now, k) == of_rank(
                        before.skip(n - 1),
                        k,
                    ) by {
                        put_in_front(sorted, c@, at as int, k);
                        let p = |c: ChannelView| rank(c) == k;
                        Seq::filter_distributes_over_add(seq![c@], sorted, p);
                        Seq::filter_distributes_over_add(seq![c@], later, p);
                        assert(of_rank(sorted, k) == of_rank(later, k));
                    }
                    if at < sorted.len() {
                        assert(r@[at + 1]@ == sorted[at as int]);
                    }
                    stays_sorted(sorted, c@, at as int);
                }
            },
        }
    }
}

/// Copies of the channels.
pub fn copies(channels: &[Channel]) -> (r: Vec<Channel>)
    ensures
        views(r@) == views(channels@),
{
    let mut r: Vec<Channel> = Vec::new();
    let mut i: usize = 0;
    while i < channels.len()
        invariant
            i <= channels@.len(),
            views(r@) == views(channels@.take(i as int)),
        decreases channels@.len() - i,
    {
        let ghost done = r@;
        r.push(channels[i].clone());
        i += 1;
        assert(views(r@) =~= views(done).push(channels@[i - 1]@));
        assert(views(channels@.take(i as int)) =~= views(channels@.take(i - 1)).push(
            channels@[i - 1]@,
        ));
    }
    assert(channels@.take(i as int) =~= channels@);
    r
}

/// The first channel with an identifier.
pub open spec fn position(channels: Seq<ChannelView>, id: Seq<char>, i: int) -> Option<int>
    decreases channels.len() - i,
{
    if i < 0 || i >= channels.len() {
        None
    } else if channels[i].id == id {
        Some(i)
    } else {
        position(channels, id, i + 1)
    }
}

/// Where the first channel with an identifier stands.
pub fn find_channel(channels: &[Channel], id: &str) -> (r: Option<usize>)
    ensures
        position(views(channels@), id@, 0) == (match r {
            Some(i) => Some(i as int),
            None => None,
        }),
        r matches Some(i) ==> i < channels@.len() && channels@[i as int].id@ == id@,
{
    let mut i: usize = 0;
    while i < channels.len()
        invariant
            i <= channels@.len(),
            position(views(channels@), id@, 0) == position(views(channels@), id@, i as int),
        decreases channels@.len() - i,
    {
        assert(views(channels@)[i as int] == channels@[i as int]@);
        if same_text(channels[i].id.as_str(), id) {
            return Some(i);
        }
        i += 1;
    }
    None
}

} // verus!
