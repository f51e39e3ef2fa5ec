//! The commands that a block carries: transactions at a stage of the
//! consensus pipeline, and proposals from foreign shards.
use vstd::prelude::*;

use crate::block::BlockId;
use crate::common::Shard;
use crate::hash::{
    bytes_lt, compare_bytes32, lemma_bytes_lt_asymmetric, lemma_bytes_lt_transitive,
    lemma_fixed_hash_view_eq, FixedHash,
};

verus! {

/// The identifier of a transaction: a 32-byte hash.
#[derive(Clone, Copy, Debug, Hash)]
pub struct TransactionId(pub FixedHash);

impl TransactionId {
    /// Whether two identifiers are equal.
    pub fn equals(&self, other: &Self) -> (r: bool)
        ensures
            r == (*self == *other),
    {
        self.0.equals(&other.0)
    }

    /// The lower-case hexadecimal rendering of the identifier.
    pub fn to_hex(&self) -> (r: String)
        ensures
            r@ == crate::hash::hex_lower(self.0@),
    {
        self.0.to_hex()
    }
}

impl PartialEq for TransactionId {
    fn eq(&self, other: &Self) -> (r: bool) {
        self.equals(other)
    }
}

impl Eq for TransactionId {}

impl vstd::std_specs::cmp::PartialEqSpecImpl for TransactionId {
    open spec fn obeys_eq_spec() -> bool {
        true
    }

    open spec fn eq_spec(&self, other: &TransactionId) -> bool {
        *self == *other
    }
}

/// Whether a transaction is to be committed or aborted.
#[derive(Clone, Copy, Debug, PartialEq, Eq, Structural, Hash)]
pub enum Decision {
    Commit,
    Abort,
}

impl Decision {
    /// Whether the decision is to commit.
    pub fn is_commit(&self) -> (r: bool)
        ensures
            r == (*self is Commit),
    {
        match self {
            Decision::Commit => true,
            Decision::Abort => false,
        }
    }
}

/// A transaction together with the decision reached on it.
#[derive(Clone, Copy, Debug)]
pub struct TransactionAtom {
    pub id: TransactionId,
    pub decision: Decision,
    pub transaction_fee: u64,
}

impl TransactionAtom {
    /// The identifier of the transaction.
    pub fn id(&self) -> (r: &TransactionId)
        ensures
            *r == self.id,
    {
        &self.id
    }

    /// Whether two atoms are equal in every field.
    pub fn equals(&self, other: &Self) -> (r: bool)
        ensures
            r == (*self == *other),
    {
        self.id.equals(&other.id) && self.decision == other.decision
            && self.transaction_fee == other.transaction_fee
    }
}

/// A block proposed by a foreign shard, referenced from a local block.
#[derive(Clone, Copy, Debug)]
pub struct ForeignProposal {
    pub shard: Shard,
    pub block_id: BlockId,
}

impl ForeignProposal {
    /// Whether two references are equal.
    pub fn equals(&self, other: &Self) -> (r: bool)
        ensures
            r == (*self == *other),
    {
        self.shard == other.shard && self.block_id.equals(&other.block_id)
    }
}

/// A command carried by a block.
#[derive(Clone, Copy, Debug)]
pub enum Command {
    Prepare(TransactionAtom),
    LocalPrepared(TransactionAtom),
    Accept(TransactionAtom),
    ForeignProposal(ForeignProposal),
}

/// The transaction of a command, for every stage of the pipeline.
pub open spec fn command_transaction(c: Command) -> Option<TransactionAtom> {
    match c {
        Command::Prepare(t) => Some(t),
        Command::LocalPrepared(t) => Some(t),
        Command::Accept(t) => Some(t),
        Command::ForeignProposal(_) => None,
    }
}

/// The transaction of an accept command.
pub open spec fn command_accept(c: Command) -> Option<TransactionAtom> {
    match c {
        Command::Accept(t) => Some(t),
        _ => None,
    }
}

/// The foreign proposal of a command.
pub open spec fn command_foreign_proposal(c: Command) -> Option<ForeignProposal> {
    match c {
        Command::ForeignProposal(p) => Some(p),
        _ => None,
    }
}

impl Command {
    /// The transaction of this command, if it carries one.
    pub fn transaction(&self) -> (r: Option<&TransactionAtom>)
        ensures
            r is Some == command_transaction(*self) is Some,
            r matches Some(t) ==> *t == command_transaction(*self)->0,
    {
        match self {
            Command::Prepare(t) => Some(t),
            Command::LocalPrepared(t) => Some(t),
            Command::Accept(t) => Some(t),
            Command::ForeignProposal(_) => None,
        }
    }

    /// The transaction of this command, if it is an accept command.
    pub fn accept(&self) -> (r: Option<&TransactionAtom>)
        ensures
            r is Some == command_accept(*self) is Some,
            r matches Some(t) ==> *t == command_accept(*self)->0,
    {
        match self {
            Command::Accept(t) => Some(t),
            _ => None,
        }
    }

    /// The foreign proposal of this command, if it is one.
    pub fn foreign_proposal(&self) -> (r: Option<&ForeignProposal>)
        ensures
            r is Some == command_foreign_proposal(*self) is Some,
            r matches Some(p) ==> *p == command_foreign_proposal(*self)->0,
    {
        match self {
            Command::ForeignProposal(p) => Some(p),
            _ => None,
        }
    }

    /// Whether two commands are equal.
    pub fn equals(&self, other: &Self) -> (r: bool)
        ensures
            r == (*self == *other),
    {
        match (self, other) {
            (Command::Prepare(a), Command::Prepare(b)) => a.equals(b),
            (Command::LocalPrepared(a), Command::LocalPrepared(b)) => a.equals(b),
            (Command::Accept(a), Command::Accept(b)) => a.equals(b),
            (Command::ForeignProposal(a), Command::ForeignProposal(b)) => a.equals(b),
            _ => false,
        }
    }
}

/// Whether no command occurs twice in `s`.
pub open spec fn commands_distinct(s: Seq<Command>) -> bool {
    forall|i: int, j: int| 0 <= i < j < s.len() ==> s[i] != s[j]
}

/// The order of commands in a set: foreign proposals first, by shard and
/// then by the bytes of the block identifier; then the transaction
/// commands, by the bytes of the transaction identifier.
pub open spec fn command_lt(a: Command, b: Command) -> bool {
    match (command_foreign_proposal(a), command_foreign_proposal(b)) {
        (Some(p), Some(q)) => p.shard.0 < q.shard.0 || (p.shard == q.shard && bytes_lt(
            p.block_id@,
            q.block_id@,
        )),
        (Some(_), None) => true,
        (None, Some(_)) => false,
        (None, None) => bytes_lt(
            command_transaction(a)->0.id.0@,
            command_transaction(b)->0.id.0@,
        ),
    }
}

/// Whether two commands take the same place in the order: the same foreign
/// proposal, or commands of the same transaction.
pub open spec fn command_same_key(a: Command, b: Command) -> bool {
    match (command_foreign_proposal(a), command_foreign_proposal(b)) {
        (Some(p), Some(q)) => p == q,
        (None, None) => command_transaction(a)->0.id == command_transaction(b)->0.id,
        _ => false,
    }
}

/// Whether `s` is in strictly increasing command order.
pub open spec fn commands_sorted(s: Seq<Command>) -> bool {
    forall|i: int, j: int| 0 <= i < j < s.len() ==> command_lt(#[trigger] s[i], #[trigger] s[j])
}

/// Whether `c` occurs in `s` before any other command with its key.
pub open spec fn first_of_key(s: Seq<Command>, c: Command) -> bool {
    exists|k: int|
        0 <= k < s.len() && #[trigger] s[k] == c && forall|j: int|
            0 <= j < k ==> !command_same_key(#[trigger] s[j], c)
}

/// Whether some command of `s` has the key of `c`.
pub open spec fn has_key(s: Seq<Command>, c: Command) -> bool {
    exists|k: int| 0 <= k < s.len() && command_same_key(#[trigger] s[k], c)
}

/// The command order is transitive.
pub proof fn lemma_command_lt_transitive(a: Command, b: Command, c: Command)
    requires
        command_lt(a, b),
        command_lt(b, c),
    ensures
        command_lt(a, c),
{
    broadcast use lemma_fixed_hash_view_eq;

    match (command_foreign_proposal(a), command_foreign_proposal(b), command_foreign_proposal(c)) {
        (Some(p), Some(q), Some(r)) => {
            if p.shard == q.shard && q.shard == r.shard {
                lemma_bytes_lt_transitive(p.block_id@, q.block_id@, r.block_id@);
            }
        },
        (None, None, None) => {
            lemma_bytes_lt_transitive(
                command_transaction(a)->0.id.0@,
                command_transaction(b)->0.id.0@,
                command_transaction(c)->0.id.0@,
            );
        },
        _ => {},
    }
}

/// A command comes strictly before another only where their keys differ,
/// and never the other way round too.
pub proof fn lemma_command_lt_asymmetric(a: Command, b: Command)
    requires
        command_lt(a, b),
    ensures
        !command_lt(b, a),
        !command_same_key(a, b),
        !command_same_key(b, a),
        a != b,
{
    broadcast use lemma_fixed_hash_view_eq;

    match (command_foreign_proposal(a), command_foreign_proposal(b)) {
        (Some(p), Some(q)) => {
            if p.shard == q.shard {
                lemma_bytes_lt_asymmetric(p.block_id@, q.block_id@);
            }
        },
        (None, None) => {
            lemma_bytes_lt_asymmetric(
                command_transaction(a)->0.id.0@,
                command_transaction(b)->0.id.0@,
            );
        },
        _ => {},
    }
}

/// The comparison of two commands in the command order: negative where `a`
/// comes first, positive where `b` does, zero where their keys are the same.
pub fn compare_commands(a: &Command, b: &Command) -> (r: i8)
    ensures
        r < 0 <==> command_lt(*a, *b),
        r > 0 <==> command_lt(*b, *a),
        r == 0 <==> command_same_key(*a, *b),
{
    broadcast use lemma_fixed_hash_view_eq;

    match (a.foreign_proposal(), b.foreign_proposal()) {
        (Some(p), Some(q)) => {
            if p.shard.0 < q.shard.0 {
                -1
            } else if p.shard.0 > q.shard.0 {
                1
            } else {
                compare_bytes32(&p.block_id.0.0, &q.block_id.0.0)
            }
        },
        (Some(_), None) => -1,
        (None, Some(_)) => 1,
        (None, None) => {
            let x = a.transaction().unwrap();
            let y = b.transaction().unwrap();
            compare_bytes32(&x.id.0.0, &y.id.0.0)
        },
    }
}

/// A set of commands, kept in the command order: foreign proposals by
/// shard and block, then transaction commands by transaction identifier.
/// No two commands share a key, so a transaction has at most one command.
#[derive(Debug)]
pub struct CommandSet {
    items: Vec<Command>,
}

impl View for CommandSet {
    type V = Seq<Command>;

    closed spec fn view(&self) -> Seq<Command> {
        self.items@
    }
}

/// A sequence in strictly increasing command order holds no command twice.
pub proof fn lemma_sorted_distinct(s: Seq<Command>)
    requires
        commands_sorted(s),
    ensures
        commands_distinct(s),
{
    assert forall|i: int, j: int| 0 <= i < j < s.len() implies s[i] != s[j] by {
        lemma_command_lt_asymmetric(s[i], s[j]);
    }
}

/// The commands of a sorted sequence after its first one are those of its
/// set other than the first.
proof fn lemma_sorted_rest(s: Seq<Command>)
    requires
        commands_sorted(s),
        s.len() > 0,
    ensures
        commands_sorted(s.drop_first()),
        s.drop_first().to_set() == s.to_set().remove(s[0]),
{
    assert forall|x: Command| s.drop_first().to_set().contains(x) <==> s.to_set().remove(s[0]).contains(x) by {
        if s.drop_first().contains(x) {
            let j = choose|j: int| 0 <= j < s.drop_first().len() && s.drop_first()[j] == x;
            assert(s[j + 1] == x);
            lemma_command_lt_asymmetric(s[0], s[j + 1]);
        }
        if s.contains(x) && x != s[0] {
            let j = choose|j: int| 0 <= j < s.len() && s[j] == x;
            assert(s.drop_first()[j - 1] == x);
        }
    }
    assert(s.drop_first().to_set() =~= s.to_set().remove(s[0]));
}

/// Two sequences in strictly increasing command order that hold the same
/// commands are the same sequence: the order of a command set does not
/// depend on the order in which its commands were inserted.
pub proof fn lemma_sorted_commands_unique(s1: Seq<Command>, s2: Seq<Command>)
    requires
        commands_sorted(s1),
        commands_sorted(s2),
        s1.to_set() == s2.to_set(),
    ensures
        s1 == s2,
    decreases s1.len(),
{
    if s1.len() == 0 {
        if s2.len() > 0 {
            assert(s2.to_set().contains(s2[0]));
        }
        assert(s1 =~= s2);
    } else {
        assert(s1.to_set().contains(s1[0]));
        assert(s2.len() > 0) by {
            if s2.len() == 0 {
                assert(s2.to_set() =~= Set::empty());
            }
        }
        let a = s1[0];
        let b = s2[0];
        assert(s2.to_set().contains(b));
        if a != b {
            assert(s2.contains(a));
            let k = choose|k: int| 0 <= k < s2.len() && s2[k] == a;
            assert(s1.contains(b));
            let m = choose|m: int| 0 <= m < s1.len() && s1[m] == b;
            assert(command_lt(b, a));
            assert(command_lt(a, b));
            lemma_command_lt_asymmetric(a, b);
        }
        lemma_sorted_rest(s1);
        lemma_sorted_rest(s2);
        lemma_sorted_commands_unique(s1.drop_first(), s2.drop_first());
        assert(s1 =~= s2) by {
            assert forall|i: int| 0 <= i < s1.len() implies s1[i] == s2[i] by {
                if i > 0 {
                    assert(s1[i] == s1.drop_first()[i - 1]);
                    assert(s2[i] == s2.drop_first()[i - 1]);
                }
            }
        }
    }
}

impl CommandSet {
    /// The well-formedness of a set: its commands are in strictly
    /// increasing command order.
    #[verifier::type_invariant]
    closed spec fn inv(self) -> bool {
        commands_sorted(self.items@)
    }

    /// An empty set.
    pub fn new() -> (r: Self)
        ensures
            r@ == Seq::<Command>::empty(),
    {
        CommandSet { items: Vec::new() }
    }

    /// The number of commands.
    pub fn len(&self) -> (r: usize)
        ensures
            r == self@.len(),
    {
        self.items.len()
    }

    /// Whether the set holds no command.
    pub fn is_empty(&self) -> (r: bool)
        ensures
            r == (self@.len() == 0),
    {
        self.items.len() == 0
    }

    /// Whether `c` is in the set.
    pub fn contains(&self, c: &Command) -> (r: bool)
        ensures
            r == self@.contains(*c),
    {
        let mut i: usize = 0;
        while i < self.items.len()
            invariant
                i <= self.items@.len(),
                forall|j: int| 0 <= j < i ==> self.items@[j] != *c,
            decreases self.items@.len() - i,
        {
            if self.items[i].equals(c) {
                return true;
            }
            i = i + 1;
        }
        false
    }

    /// The number of commands that come before `c` in the command order.
    fn position_of(&self, c: &Command) -> (p: usize)
        ensures
            p <= self@.len(),
            forall|j: int| 0 <= j < p ==> command_lt(#[trigger] self@[j], *c),
            p < self@.len() ==> !command_lt(self@[p as int], *c),
    {
        let mut p: usize = 0;
        while p < self.items.len()
            invariant
                p <= self.items@.len(),
                forall|j: int| 0 <= j < p ==> command_lt(#[trigger] self.items@[j], *c),
            decreases self.items@.len() - p,
        {
            if compare_commands(&self.items[p], c) >= 0 {
                return p;
            }
            p = p + 1;
        }
        p
    }

    /// Adds `c` in its place in the command order, unless a command with
    /// its key is already in the set; returns whether it was added.
    pub fn insert(&mut self, c: Command) -> (r: bool)
        ensures
            r == !has_key(old(self)@, c),
            commands_sorted(final(self)@),
            final(self)@.to_set() == if r {
                old(self)@.to_set().insert(c)
            } else {
                old(self)@.to_set()
            },
            final(self)@.len() == old(self)@.len() + if r {
                1int
            } else {
                0int
            },
    {
        proof {
            use_type_invariant(&*self);
        }
        let ghost s = self.items@;
        let n = self.items.len();
        let p = self.position_of(&c);
        let o = if p < n {
            compare_commands(&self.items[p], &c)
        } else {
            1
        };
        if p < n && o == 0 {
            assert(command_same_key(s[p as int], c));
            return false;
        }
        proof {
            assert forall|i: int| 0 <= i < s.len() implies !command_same_key(#[trigger] s[i], c) by {
                if i < p {
                    lemma_command_lt_asymmetric(s[i], c);
                } else {
                    lemma_command_lt_asymmetric(c, s[p as int]);
                    if i > p {
                        lemma_command_lt_transitive(c, s[p as int], s[i]);
                        lemma_command_lt_asymmetric(c, s[i]);
                    }
                }
            }
        }
        let mut items = Vec::new();
        std::mem::swap(&mut items, &mut self.items);
        items.insert(p, c);
        let ghost t = items@;
        assert(t == s.insert(p as int, c));
        proof {
            assert forall|i: int, j: int| 0 <= i < j < t.len() implies command_lt(
                #[trigger] t[i],
                #[trigger] t[j],
            ) by {
                if j < p {
                    assert(command_lt(s[i], s[j]));
                } else if j == p {
                    assert(command_lt(s[i], c));
                } else {
                    assert(t[j] == s[j - 1]);
                    assert(command_lt(c, s[j - 1])) by {
                        if j - 1 > p {
                            assert(command_lt(s[p as int], s[j - 1]));
                            lemma_command_lt_transitive(c, s[p as int], s[j - 1]);
                        }
                    }
                    if i < p {
                        assert(command_lt(s[i], s[j - 1]));
                    } else if i > p {
                        assert(t[i] == s[i - 1]);
                        assert(command_lt(s[i - 1], s[j - 1]));
                    }
                }
            }
            assert(t.to_set() =~= s.to_set().insert(c)) by {
                assert forall|x: Command| t.to_set().contains(x) <==> s.to_set().insert(c).contains(x) by {
                    if t.contains(x) {
                        let k = choose|k: int| 0 <= k < t.len() && t[k] == x;
                        if k < p {
                            assert(s[k] == x);
                        } else if k > p {
                            assert(s[k - 1] == x);
                        }
                    }
                    if s.contains(x) {
                        let k = choose|k: int| 0 <= k < s.len() && s[k] == x;
                        if k < p {
                            assert(t[k] == x);
                        } else {
                            assert(t[k + 1] == x);
                        }
                    }
                    if x == c {
                        assert(t[p as int] == x);
                    }
                }
            }
        }
        self.items = items;
        true
    }

    /// The set built from `v`: of the commands that share a key, the first
    /// is kept.
    pub fn from_vec(v: Vec<Command>) -> (r: Self)
        ensures
            commands_sorted(r@),
            forall|c: Command| r@.contains(c) <==> first_of_key(v@, c),
    {
        let mut r = CommandSet::new();
        let mut i: usize = 0;
        while i < v.len()
            invariant
                i <= v@.len(),
                commands_sorted(r@),
                forall|c: Command| r@.contains(c) <==> first_of_key(v@.subrange(0, i as int), c),
                forall|c: Command| has_key(r@, c) <==> has_key(v@.subrange(0, i as int), c),
            decreases v@.len() - i,
        {
            let ghost before = r@;
            let ghost pre = v@.subrange(0, i as int);
            let ghost post = v@.subrange(0, i + 1);
            let x = v[i];
            let added = r.insert(x);
            proof {
                assert(post == pre.push(x));
                assert forall|c: Command| has_key(r@, c) <==> has_key(post, c) by {
                    if has_key(r@, c) {
                        let k = choose|k: int| 0 <= k < r@.len() && command_same_key(#[trigger] r@[k], c);
                        assert(r@.to_set().contains(r@[k]));
                        if before.to_set().contains(r@[k]) {
                            let k2 = choose|k2: int| 0 <= k2 < before.len() && before[k2] == r@[k];
                            assert(has_key(before, c));
                            let k3 = choose|k3: int| 0 <= k3 < pre.len() && command_same_key(#[trigger] pre[k3], c);
                            assert(post[k3] == pre[k3]);
                        } else {
                            assert(r@[k] == x);
                            assert(post[i as int] == x);
                        }
                    }
                    if has_key(post, c) {
                        let k = choose|k: int| 0 <= k < post.len() && command_same_key(#[trigger] post[k], c);
                        if k < i {
                            assert(pre[k] == post[k]);
                            assert(has_key(pre, c));
                            assert(has_key(before, c));
                            let k2 = choose|k2: int| 0 <= k2 < before.len() && command_same_key(#[trigger] before[k2], c);
                            assert(before.contains(before[k2]));
                            assert(before.to_set().contains(before[k2]));
                            assert(r@.to_set().contains(before[k2]));
                            assert(r@.contains(before[k2]));
                            let k3 = choose|k3: int| 0 <= k3 < r@.len() && r@[k3] == before[k2];
                            assert(command_same_key(r@[k3], c));
                        } else {
                            assert(post[k] == x);
                            if added {
                                assert(r@.to_set().contains(x));
                                let k3 = choose|k3: int| 0 <= k3 < r@.len() && r@[k3] == x;
                                assert(command_same_key(r@[k3], c));
                            } else {
                                assert(has_key(before, x));
                                let k2 = choose|k2: int| 0 <= k2 < before.len() && command_same_key(#[trigger] before[k2], x);
                                assert(r@.to_set().contains(before[k2]));
                                let k3 = choose|k3: int| 0 <= k3 < r@.len() && r@[k3] == before[k2];
                                assert(command_same_key(r@[k3], c));
                            }
                        }
                    }
                }
                assert forall|c: Command| r@.contains(c) <==> first_of_key(post, c) by {
                    assert(r@.contains(c) <==> r@.to_set().contains(c));
                    assert(before.contains(c) <==> before.to_set().contains(c));
                    if first_of_key(post, c) {
                        let k = choose|k: int|
                            0 <= k < post.len() && #[trigger] post[k] == c && forall|j: int|
                                0 <= j < k ==> !command_same_key(#[trigger] post[j], c);
                        if k < i {
                            assert(pre[k] == c);
                            assert forall|j: int| 0 <= j < k implies !command_same_key(#[trigger] pre[j], c) by {
                                assert(pre[j] == post[j]);
                            }
                            assert(first_of_key(pre, c));
                        } else {
                            assert(c == x);
                            assert(!has_key(pre, x)) by {
                                if has_key(pre, x) {
                                    let j = choose|j: int| 0 <= j < pre.len() && command_same_key(#[trigger] pre[j], x);
                                    assert(post[j] == pre[j]);
                                }
                            }
                        }
                    }
                    if r@.contains(c) {
                        if before.contains(c) {
                            assert(first_of_key(pre, c));
                            let k = choose|k: int|
                                0 <= k < pre.len() && #[trigger] pre[k] == c && forall|j: int|
                                    0 <= j < k ==> !command_same_key(#[trigger] pre[j], c);
                            assert(post[k] == c);
                            assert forall|j: int| 0 <= j < k implies !command_same_key(#[trigger] post[j], c) by {
                                assert(pre[j] == post[j]);
                            }
                        } else {
                            assert(added && c == x);
                            assert(post[i as int] == x);
                            assert forall|j: int| 0 <= j < i implies !command_same_key(#[trigger] post[j], x) by {
                                assert(pre[j] == post[j]);
                                if command_same_key(pre[j], x) {
                                    assert(has_key(pre, x));
                                }
                            }
                        }
                    }
                }
            }
            i = i + 1;
        }
        assert(v@.subrange(0, v@.len() as int) =~= v@);
        r
    }

    /// The commands in order.
    pub fn as_slice(&self) -> (r: &[Command])
        ensures
            r@ == self@,
            commands_sorted(r@),
            commands_distinct(r@),
    {
        proof {
            use_type_invariant(self);
            lemma_sorted_distinct(self.items@);
        }
        self.items.as_slice()
    }
}

impl Clone for CommandSet {
    fn clone(&self) -> (r: Self)
        ensures
            r@ == self@,
    {
        proof {
            use_type_invariant(self);
        }
        CommandSet { items: self.items.clone() }
    }
}

} // verus!
