//! The byte layout of stored records. Integers are little-endian; signed
//! balances are stored offset by 2^127, so that every value is a plain
//! unsigned number. An account is 51 bytes: client (2), available (16),
//! held (16), total (16), status (1). A transaction is 25 bytes: kind (1),
//! client (2), id (4), amount flag (1), amount (16), dispute status (1).
use crate::account::{AccountStatus, ClientAccount};
use crate::balance::{Amount, Balance};
use crate::transaction::{DisputeStatus, Transaction, TransactionType};
use vstd::prelude::*;

verus! {

/// The length of an encoded account.
pub const ACCOUNT_LEN: usize = 51;

/// The length of an encoded transaction.
pub const TRANSACTION_LEN: usize = 25;

/// 256 to the power `n`.
pub open spec fn pow256(n: nat) -> nat
    decreases n,
{
    if n == 0 {
        1
    } else {
        256 * pow256((n - 1) as nat)
    }
}

/// The `n` little-endian bytes of `v`.
pub open spec fn le_bytes(v: nat, n: nat) -> Seq<u8>
    decreases n,
{
    if n == 0 {
        Seq::empty()
    } else {
        seq![(v % 256) as u8] + le_bytes(v / 256, (n - 1) as nat)
    }
}

/// The number that little-endian bytes `s` stand for.
pub open spec fn le_uint(s: Seq<u8>) -> nat
    decreases s.len(),
{
    if s.len() == 0 {
        0
    } else {
        s[0] as nat + 256 * le_uint(s.drop_first())
    }
}

/// 2^127: the offset of a stored balance.
pub open spec fn balance_offset() -> int {
    0x8000_0000_0000_0000_0000_0000_0000_0000
}

/// The stored form of a signed balance.
pub open spec fn balance_code(x: i128) -> nat {
    (x + balance_offset()) as nat
}

/// The balance a stored form stands for.
pub open spec fn balance_of_code(v: nat) -> i128 {
    (v - balance_offset()) as i128
}

pub open spec fn status_byte(s: AccountStatus) -> u8 {
    match s {
        AccountStatus::Active => 0,
        AccountStatus::Locked => 1,
    }
}

pub open spec fn kind_byte(k: TransactionType) -> u8 {
    match k {
        TransactionType::Deposit => 0,
        TransactionType::Withdrawal => 1,
        TransactionType::Dispute => 2,
        TransactionType::Resolve => 3,
        TransactionType::Chargeback => 4,
    }
}

pub open spec fn dispute_byte(d: DisputeStatus) -> u8 {
    match d {
        DisputeStatus::Undisputed => 0,
        DisputeStatus::Disputed => 1,
        DisputeStatus::Resolved => 2,
        DisputeStatus::Chargebacked => 3,
    }
}

pub open spec fn status_of_byte(b: u8) -> Option<AccountStatus> {
    if b == 0 {
        Some(AccountStatus::Active)
    } else if b == 1 {
        Some(AccountStatus::Locked)
    } else {
        None
    }
}

pub open spec fn kind_of_byte(b: u8) -> Option<TransactionType> {
    if b == 0 {
        Some(TransactionType::Deposit)
    } else if b == 1 {
        Some(TransactionType::Withdrawal)
    } else if b == 2 {
        Some(TransactionType::Dispute)
    } else if b == 3 {
        Some(TransactionType::Resolve)
    } else if b == 4 {
        Some(TransactionType::Chargeback)
    } else {
        None
    }
}

pub open spec fn dispute_of_byte(b: u8) -> Option<DisputeStatus> {
    if b == 0 {
        Some(DisputeStatus::Undisputed)
    } else if b == 1 {
        Some(DisputeStatus::Disputed)
    } else if b == 2 {
        Some(DisputeStatus::Resolved)
    } else if b == 3 {
        Some(DisputeStatus::Chargebacked)
    } else {
        None
    }
}

/// The bytes of an account.
pub open spec fn account_bytes(a: ClientAccount) -> Seq<u8> {
    le_bytes(a.client as nat, 2) + le_bytes(balance_code(a.available.0), 16) + le_bytes(
        balance_code(a.held.0),
        16,
    ) + le_bytes(balance_code(a.total.0), 16) + seq![status_byte(a.status)]
}

/// The account that bytes `s` hold, if they hold one.
pub open spec fn account_of_bytes(s: Seq<u8>) -> Option<ClientAccount> {
    if s.len() != ACCOUNT_LEN {
        None
    } else {
        match status_of_byte(s[50]) {
            Some(status) => Some(
                ClientAccount {
                    client: le_uint(s.subrange(0, 2)) as u16,
                    available: Balance(balance_of_code(le_uint(s.subrange(2, 18)))),
                    held: Balance(balance_of_code(le_uint(s.subrange(18, 34)))),
                    total: Balance(balance_of_code(le_uint(s.subrange(34, 50)))),
                    status,
                },
            ),
            None => None,
        }
    }
}

/// The stored amount of a transaction: zero when it has none.
pub open spec fn amount_code(t: Transaction) -> nat {
    match t.amount {
        Some(a) => balance_code(a.spec_units() as i128),
        None => balance_code(0),
    }
}

/// The bytes of a transaction.
pub open spec fn transaction_bytes(t: Transaction) -> Seq<u8> {
    seq![kind_byte(t.kind)] + le_bytes(t.client as nat, 2) + le_bytes(t.tx as nat, 4) + seq![
        if t.amount is Some { 1u8 } else { 0u8 },
    ] + le_bytes(amount_code(t), 16) + seq![dispute_byte(t.dispute_status)]
}

/// Whether bytes `s` hold a transaction; when they do, the transaction is
/// determined by its fields, as `decodes_to` relates them.
pub open spec fn holds_transaction(s: Seq<u8>) -> bool {
    &&& s.len() == TRANSACTION_LEN
    &&& kind_of_byte(s[0]) is Some
    &&& dispute_of_byte(s[24]) is Some
    &&& (s[7] == 0 || s[7] == 1)
    &&& s[7] == 1 ==> balance_of_code(le_uint(s.subrange(8, 24))) > 0
}

/// The transaction that bytes `s` hold, compared field by field.
pub open spec fn decodes_to(s: Seq<u8>, t: Transaction) -> bool {
    &&& holds_transaction(s)
    &&& t.kind == kind_of_byte(s[0])->Some_0
    &&& t.client == le_uint(s.subrange(1, 3)) as u16
    &&& t.tx == le_uint(s.subrange(3, 7)) as u32
    &&& (s[7] == 1 <==> t.amount is Some)
    &&& (t.amount matches Some(a) ==> a.spec_units() == balance_of_code(le_uint(s.subrange(8, 24))))
    &&& t.dispute_status == dispute_of_byte(s[24])->Some_0
}

/// Little-endian bytes stand for the number they were made from.
pub proof fn lemma_le_round_trip(v: nat, n: nat)
    requires
        v < pow256(n),
    ensures
        le_bytes(v, n).len() == n,
        le_uint(le_bytes(v, n)) == v,
    decreases n,
{
    if n > 0 {
        let k = (n - 1) as nat;
        assert(v / 256 < pow256(k)) by (nonlinear_arith)
            requires
                v < 256 * pow256(k),
        ;
        lemma_le_round_trip(v / 256, k);
        let s = le_bytes(v, n);
        assert(s.drop_first() =~= le_bytes(v / 256, k));
        assert(v == v % 256 + 256 * (v / 256)) by (nonlinear_arith);
    }
}

proof fn lemma_pow256_bounds(n: nat)
    requires
        n <= 16,
    ensures
        pow256(n) <= pow256(16),
        pow256(16) == 0x1_0000_0000_0000_0000_0000_0000_0000_0000,
        pow256(2) == 0x1_0000,
        pow256(4) == 0x1_0000_0000,
    decreases 16 - n,
{
    reveal_with_fuel(pow256, 17);
    if n < 16 {
        lemma_pow256_bounds(n + 1);
    }
}

/// Appends the `n` little-endian bytes of `v`.
fn put_uint(out: &mut Vec<u8>, v: u128, n: usize)
    requires
        n <= 16,
        v < pow256(n as nat),
    ensures
        final(out)@ == old(out)@ + le_bytes(v as nat, n as nat),
{
    let mut w = v;
    let mut i: usize = 0;
    while i < n
        invariant
            i <= n,
            w < pow256((n - i) as nat),
            out@ + le_bytes(w as nat, (n - i) as nat) == old(out)@ + le_bytes(v as nat, n as nat),
        decreases n - i,
    {
        let ghost k = (n - i - 1) as nat;
        let b = (w % 256) as u8;
        let ghost before = out@;
        out.push(b);
        proof {
            assert(le_bytes(w as nat, (k + 1) as nat) == seq![b] + le_bytes((w / 256) as nat, k));
            assert(before + le_bytes(w as nat, (k + 1) as nat) =~= out@ + le_bytes((w / 256) as nat, k));
            assert(w / 256 < pow256(k)) by (nonlinear_arith)
                requires
                    w < 256 * pow256(k),
            ;
        }
        w = w / 256;
        i = i + 1;
    }
    proof {
        assert(out@ =~= out@ + le_bytes(w as nat, 0));
    }
}

/// The number held by the `n` little-endian bytes of `b` from `start` on.
fn get_uint(b: &[u8], start: usize, n: usize) -> (r: u128)
    requires
        n <= 16,
        start + n <= b@.len(),
    ensures
        r == le_uint(b@.subrange(start as int, start + n)),
        r < pow256(n as nat),
{
    proof {
        lemma_pow256_bounds(n as nat);
    }
    let len = b.len();
    let mut acc: u128 = 0;
    let mut i: usize = n;
    proof {
        assert(b@.subrange(start + n, start + n) =~= Seq::<u8>::empty());
    }
    while i > 0
        invariant
            i <= n,
            n <= 16,
            start + n <= b@.len(),
            len == b@.len(),
            pow256(n as nat) <= pow256(16),
            pow256(16) == 0x1_0000_0000_0000_0000_0000_0000_0000_0000,
            acc == le_uint(b@.subrange(start + i, start + n)),
            acc < pow256((n - i) as nat),
        decreases i,
    {
        let ghost k = (n - i) as nat;
        proof {
            lemma_pow256_bounds((k + 1) as nat);
            assert(256 * acc + 255 < pow256(k + 1)) by (nonlinear_arith)
                requires
                    acc < pow256(k),
                    pow256(k + 1) == 256 * pow256(k),
            ;
        }
        let byte = b[start + (i - 1)];
        acc = acc * 256 + byte as u128;
        proof {
            let s = b@.subrange(start + i - 1, start + n);
            assert(s.drop_first() =~= b@.subrange(start + i, start + n));
        }
        i = i - 1;
    }
    acc
}

/// The stored form of a balance.
fn put_balance(out: &mut Vec<u8>, x: i128)
    ensures
        final(out)@ == old(out)@ + le_bytes(balance_code(x), 16),
{
    proof {
        lemma_pow256_bounds(16);
    }
    let v: u128 = if x >= 0 {
        (x as u128) + 0x8000_0000_0000_0000_0000_0000_0000_0000u128
    } else {
        (x + i128::MAX + 1) as u128
    };
    put_uint(out, v, 16);
}

/// The balance held by 16 stored bytes from `start` on.
fn get_balance(b: &[u8], start: usize) -> (r: i128)
    requires
        start + 16 <= b@.len(),
    ensures
        r == balance_of_code(le_uint(b@.subrange(start as int, start + 16))),
{
    let v = get_uint(b, start, 16);
    proof {
        lemma_pow256_bounds(16);
    }
    if v >= 0x8000_0000_0000_0000_0000_0000_0000_0000u128 {
        (v - 0x8000_0000_0000_0000_0000_0000_0000_0000u128) as i128
    } else {
        (v as i128) - i128::MAX - 1
    }
}

/// The bytes of `a`.
pub fn encode_account(a: &ClientAccount) -> (r: Vec<u8>)
    ensures
        r@ == account_bytes(*a),
{
    proof {
        lemma_pow256_bounds(2);
    }
    let mut out: Vec<u8> = Vec::new();
    put_uint(&mut out, a.client as u128, 2);
    put_balance(&mut out, a.available.0);
    put_balance(&mut out, a.held.0);
    put_balance(&mut out, a.total.0);
    let status: u8 = match a.status {
        AccountStatus::Active => 0,
        AccountStatus::Locked => 1,
    };
    out.push(status);
    proof {
        assert(out@ =~= account_bytes(*a));
    }
    out
}

/// The account that `b` holds, if it holds one.
pub fn decode_account(b: &[u8]) -> (r: Option<ClientAccount>)
    ensures
        r == account_of_bytes(b@),
{
    if b.len() != ACCOUNT_LEN {
        return None;
    }
    let status = if b[50] == 0 {
        AccountStatus::Active
    } else if b[50] == 1 {
        AccountStatus::Locked
    } else {
        return None;
    };
    let client = get_uint(b, 0, 2) as u16;
    let available = get_balance(b, 2);
    let held = get_balance(b, 18);
    let total = get_balance(b, 34);
    Some(
        ClientAccount {
            client,
            available: Balance(available),
            held: Balance(held),
            total: Balance(total),
            status,
        },
    )
}

/// An encoded account decodes to itself.
pub proof fn lemma_account_round_trip(a: ClientAccount)
    ensures
        account_of_bytes(account_bytes(a)) == Some(a),
{
    lemma_pow256_bounds(2);
    let codes = seq![balance_code(a.available.0), balance_code(a.held.0), balance_code(a.total.0)];
    lemma_le_round_trip(a.client as nat, 2);
    lemma_le_round_trip(balance_code(a.available.0), 16);
    lemma_le_round_trip(balance_code(a.held.0), 16);
    lemma_le_round_trip(balance_code(a.total.0), 16);
    let s = account_bytes(a);
    assert(s.subrange(0, 2) =~= le_bytes(a.client as nat, 2));
    assert(s.subrange(2, 18) =~= le_bytes(balance_code(a.available.0), 16));
    assert(s.subrange(18, 34) =~= le_bytes(balance_code(a.held.0), 16));
    assert(s.subrange(34, 50) =~= le_bytes(balance_code(a.total.0), 16));
}

/// The bytes of `t`.
pub fn encode_transaction(t: &Transaction) -> (r: Vec<u8>)
    ensures
        r@ == transaction_bytes(*t),
{
    proof {
        lemma_pow256_bounds(2);
    }
    let mut out: Vec<u8> = Vec::new();
    let kind: u8 = match t.kind {
        TransactionType::Deposit => 0,
        TransactionType::Withdrawal => 1,
        TransactionType::Dispute => 2,
        TransactionType::Resolve => 3,
        TransactionType::Chargeback => 4,
    };
    out.push(kind);
    put_uint(&mut out, t.client as u128, 2);
    put_uint(&mut out, t.tx as u128, 4);
    match t.amount {
        Some(a) => {
            out.push(1);
            put_balance(&mut out, a.value().0);
        },
        None => {
            out.push(0);
            put_balance(&mut out, 0);
        },
    }
    let status: u8 = match t.dispute_status {
        DisputeStatus::Undisputed => 0,
        DisputeStatus::Disputed => 1,
        DisputeStatus::Resolved => 2,
        DisputeStatus::Chargebacked => 3,
    };
    out.push(status);
    proof {
        assert(out@ =~= transaction_bytes(*t));
    }
    out
}

/// The transaction that `b` holds, if it holds one.
pub fn decode_transaction(b: &[u8]) -> (r: Option<Transaction>)
    ensures
        r is Some <==> holds_transaction(b@),
        r matches Some(t) ==> decodes_to(b@, t),
{
    if b.len() != TRANSACTION_LEN {
        return None;
    }
    let kind = if b[0] == 0 {
        TransactionType::Deposit
    } else if b[0] == 1 {
        TransactionType::Withdrawal
    } else if b[0] == 2 {
        TransactionType::Dispute
    } else if b[0] == 3 {
        TransactionType::Resolve
    } else if b[0] == 4 {
        TransactionType::Chargeback
    } else {
        return None;
    };
    let dispute_status = if b[24] == 0 {
        DisputeStatus::Undisputed
    } else if b[24] == 1 {
        DisputeStatus::Disputed
    } else if b[24] == 2 {
        DisputeStatus::Resolved
    } else if b[24] == 3 {
        DisputeStatus::Chargebacked
    } else {
        return None;
    };
    let amount = if b[7] == 0 {
        None
    } else if b[7] == 1 {
        match Amount::new(Balance(get_balance(b, 8))) {
            Ok(a) => Some(a),
            Err(_) => {
                return None;
            },
        }
    } else {
        return None;
    };
    let client = get_uint(b, 1, 2) as u16;
    let tx = get_uint(b, 3, 4) as u32;
    Some(Transaction { kind, client, tx, amount, dispute_status })
}

/// Bytes decode to at most one transaction.
pub proof fn lemma_decoding_unique(s: Seq<u8>, t: Transaction, u: Transaction)
    requires
        decodes_to(s, t),
        decodes_to(s, u),
    ensures
        t == u,
{
    if let Some(a) = t.amount {
        Amount::lemma_units_determine(a, u.amount->Some_0);
    }
}

/// An encoded transaction whose amount, if any, is positive decodes to
/// itself, and to nothing else.
pub proof fn lemma_transaction_round_trip(t: Transaction, d: Transaction)
    requires
        t.amount matches Some(a) ==> a.spec_units() > 0,
    ensures
        holds_transaction(transaction_bytes(t)),
        decodes_to(transaction_bytes(t), t),
        decodes_to(transaction_bytes(t), d) ==> d == t,
{
    lemma_pow256_bounds(2);
    lemma_le_round_trip(t.client as nat, 2);
    lemma_le_round_trip(t.tx as nat, 4);
    lemma_le_round_trip(amount_code(t), 16);
    let s = transaction_bytes(t);
    assert(s.subrange(1, 3) =~= le_bytes(t.client as nat, 2));
    assert(s.subrange(3, 7) =~= le_bytes(t.tx as nat, 4));
    assert(s.subrange(8, 24) =~= le_bytes(amount_code(t), 16));
    assert(s.len() == 25);
    assert(s[0] == kind_byte(t.kind));
    assert(s[7] == if t.amount is Some { 1u8 } else { 0u8 });
    assert(s[24] == dispute_byte(t.dispute_status));
    if let Some(a) = t.amount {
        Amount::lemma_units_in_range(a);
        assert(balance_of_code(amount_code(t)) == a.spec_units());
    }
    if decodes_to(s, d) {
        if let Some(a) = t.amount {
            Amount::lemma_units_determine(a, d.amount->Some_0);
        }
        assert(d.kind == t.kind);
        assert(d.dispute_status == t.dispute_status);
    }
}

} // verus!
