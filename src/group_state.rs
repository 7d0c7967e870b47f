use vstd::prelude::*;
use vstd::utf8::{decode_utf8, encode_utf8, valid_utf8};
use crate::address::Address;
use crate::group::{addrs, Group};
use crate::group_manager::{keys_of, models_of, GroupEntry, GroupManager};

verus! {

// The serialized state of the group manager:
//   count (8 bytes, big-endian), then per group:
//   address (20), parent (20), name length (8), name (UTF-8),
//   account count (8), accounts (20 each), child count (8), children (20 each).

/// A group as its parts: name, parent, accounts, children.
pub type GroupModel = (Seq<char>, Seq<u8>, Seq<Seq<u8>>, Seq<Seq<u8>>);

/// The 8-byte big-endian form of `v`.
pub open spec fn be64(v: u64) -> Seq<u8> {
    seq![
        (v / 0x100000000000000) as u8,
        (v / 0x1000000000000 % 256) as u8,
        (v / 0x10000000000 % 256) as u8,
        (v / 0x100000000 % 256) as u8,
        (v / 0x1000000 % 256) as u8,
        (v / 0x10000 % 256) as u8,
        (v / 0x100 % 256) as u8,
        (v % 256) as u8,
    ]
}

/// The number in the 8 big-endian bytes of `b` from `p`.
pub open spec fn read_be64(b: Seq<u8>, p: int) -> int {
    b[p] * 0x100000000000000 + b[p + 1] * 0x1000000000000 + b[p + 2] * 0x10000000000 + b[p + 3]
        * 0x100000000 + b[p + 4] * 0x1000000 + b[p + 5] * 0x10000 + b[p + 6] * 0x100 + b[p + 7]
}

/// The concatenation of the items of `s`.
pub open spec fn concat(s: Seq<Seq<u8>>) -> Seq<u8>
    decreases s.len(),
{
    if s.len() == 0 {
        Seq::empty()
    } else {
        concat(s.drop_last()) + s.last()
    }
}

/// A list of addresses: its count, then the addresses.
pub open spec fn enc_list(s: Seq<Seq<u8>>) -> Seq<u8> {
    be64(s.len() as u64) + concat(s)
}

pub open spec fn enc_group(k: Seq<u8>, m: GroupModel) -> Seq<u8> {
    k + m.1 + be64(encode_utf8(m.0).len() as u64) + encode_utf8(m.0) + enc_list(m.2) + enc_list(
        m.3,
    )
}

pub open spec fn enc_groups(ks: Seq<Seq<u8>>, ms: Seq<GroupModel>) -> Seq<u8>
    decreases ks.len(),
{
    if ks.len() == 0 || ms.len() == 0 {
        Seq::empty()
    } else {
        enc_groups(ks.drop_last(), ms.drop_last()) + enc_group(ks.last(), ms.last())
    }
}

/// The serialized state of the groups stored under `ks` with models `ms`.
pub open spec fn enc_state(ks: Seq<Seq<u8>>, ms: Seq<GroupModel>) -> Seq<u8> {
    be64(ks.len() as u64) + enc_groups(ks, ms)
}

/// A list of addresses read from `p`: the addresses and where the list ends.
pub open spec fn parse_list(b: Seq<u8>, p: int) -> Option<(Seq<Seq<u8>>, int)> {
    if 0 <= p && p + 8 <= b.len() && p + 8 + 20 * read_be64(b, p) <= b.len() {
        let n = read_be64(b, p);
        Some(
            (
                Seq::new(n as nat, |i: int| b.subrange(p + 8 + 20 * i, p + 28 + 20 * i)),
                p + 8 + 20 * n,
            ),
        )
    } else {
        None
    }
}

/// A group read from `p`: its address, its model and where it ends.
pub open spec fn parse_group(b: Seq<u8>, p: int) -> Option<(Seq<u8>, GroupModel, int)> {
    if 0 <= p && p + 48 <= b.len() && p + 48 + read_be64(b, p + 40) <= b.len() {
        let nl = read_be64(b, p + 40);
        let nb = b.subrange(p + 48, p + 48 + nl);
        if !valid_utf8(nb) {
            None
        } else {
            match parse_list(b, p + 48 + nl) {
                None => None,
                Some((acc, q)) => match parse_list(b, q) {
                    None => None,
                    Some((ch, e)) => Some(
                        (b.subrange(p, p + 20), (decode_utf8(nb), b.subrange(p + 20, p + 40), acc, ch), e),
                    ),
                },
            }
        }
    }
    else {
        None
    }
}

/// `n` groups read one after the other from `p`.
pub open spec fn parse_groups(b: Seq<u8>, p: int, n: nat) -> Option<
    (Seq<Seq<u8>>, Seq<GroupModel>, int),
>
    decreases n,
{
    if n == 0 {
        Some((Seq::empty(), Seq::empty(), p))
    } else {
        match parse_groups(b, p, (n - 1) as nat) {
            None => None,
            Some((ks, ms, q)) => match parse_group(b, q) {
                None => None,
                Some((k, m, e)) => Some((ks.push(k), ms.push(m), e)),
            },
        }
    }
}

/// The groups that `b` holds, if it is a whole serialized state with distinct addresses.
pub open spec fn parse_state(b: Seq<u8>) -> Option<(Seq<Seq<u8>>, Seq<GroupModel>)> {
    if b.len() < 8 {
        None
    } else {
        match parse_groups(b, 8, read_be64(b, 0) as nat) {
            Some((ks, ms, e)) => if e == b.len() && ks.no_duplicates() {
                Some((ks, ms))
            } else {
                None
            },
            None => None,
        }
    }
}

/// Relies on String::from_utf8: it accepts exactly valid UTF-8 and gives the
/// characters those bytes encode.
#[verifier::external_body]
fn string_from_utf8(b: Vec<u8>) -> (r: Option<String>)
    ensures
        r is Some <==> valid_utf8(b@),
        r matches Some(s) ==> s@ == decode_utf8(b@),
{
    String::from_utf8(b).ok()
}

fn push_be64(out: &mut Vec<u8>, v: u64)
    ensures
        final(out)@ == old(out)@ + be64(v),
{
    out.push((v / 0x100000000000000) as u8);
    out.push((v / 0x1000000000000 % 256) as u8);
    out.push((v / 0x10000000000 % 256) as u8);
    out.push((v / 0x100000000 % 256) as u8);
    out.push((v / 0x1000000 % 256) as u8);
    out.push((v / 0x10000 % 256) as u8);
    out.push((v / 0x100 % 256) as u8);
    out.push((v % 256) as u8);
    assert(final(out)@ =~= old(out)@ + be64(v));
}

fn push_bytes(out: &mut Vec<u8>, b: &[u8])
    ensures
        final(out)@ == old(out)@ + b@,
{
    let ghost start = out@;
    let mut i: usize = 0;
    while i < b.len()
        invariant
            i <= b@.len(),
            out@ =~= start + b@.subrange(0, i as int),
        decreases b@.len() - i,
    {
        out.push(b[i]);
        i = i + 1;
    }
    assert(b@.subrange(0, b@.len() as int) =~= b@);
}

fn push_list(out: &mut Vec<u8>, v: &Vec<Address>)
    ensures
        final(out)@ == old(out)@ + enc_list(addrs(v@)),
{
    let ghost start = out@;
    push_be64(out, v.len() as u64);
    let ghost mid = out@;
    let mut i: usize = 0;
    while i < v.len()
        invariant
            i <= v@.len(),
            out@ == mid + concat(addrs(v@).subrange(0, i as int)),
        decreases v@.len() - i,
    {
        let a = v[i];
        proof {
            assert(addrs(v@).subrange(0, i + 1).drop_last() =~= addrs(v@).subrange(0, i as int));
        }
        push_bytes(out, &a.bytes);
        assert(out@ =~= mid + concat(addrs(v@).subrange(0, i + 1)));
        i = i + 1;
    }
    assert(addrs(v@).subrange(0, v@.len() as int) =~= addrs(v@));
    assert(out@ =~= start + enc_list(addrs(v@)));
}

/// The serialized state of `g`.
pub fn serialize_groups(g: &GroupManager) -> (r: Vec<u8>)
    ensures
        r@ == enc_state(g.keys(), g.models()),
{
    let mut out: Vec<u8> = Vec::new();
    push_be64(&mut out, g.groups.len() as u64);
    let ghost s = g.groups@;
    let ghost head = out@;
    let mut i: usize = 0;
    while i < g.groups.len()
        invariant
            s == g.groups@,
            i <= s.len(),
            out@ == head + enc_groups(keys_of(s.subrange(0, i as int)), models_of(s.subrange(0, i as int))),
        decreases s.len() - i,
    {
        let e = &g.groups[i];
        let ghost before = out@;
        push_bytes(&mut out, &e.address.bytes);
        push_bytes(&mut out, &e.group.parent.bytes);
        let name = e.group.name.as_str().as_bytes();
        push_be64(&mut out, name.len() as u64);
        push_bytes(&mut out, name);
        push_list(&mut out, &e.group.accounts);
        push_list(&mut out, &e.group.children);
        proof {
            let t = s.subrange(0, i + 1);
            assert(t.drop_last() =~= s.subrange(0, i as int));
            assert(keys_of(t).drop_last() =~= keys_of(s.subrange(0, i as int)));
            assert(models_of(t).drop_last() =~= models_of(s.subrange(0, i as int)));
            assert(out@ =~= before + enc_group(keys_of(t).last(), models_of(t).last()));
        }
        i = i + 1;
    }
    proof {
        assert(s.subrange(0, s.len() as int) =~= s);
    }
    out
}


pub fn read_u64_at(b: &Vec<u8>, p: usize) -> (r: u64)
    requires
        p + 8 <= b@.len(),
    ensures
        r == read_be64(b@, p as int),
{
    let len = b.len();
    proof {
        reveal_with_fuel(pow256, 9);
        assert(pow256(8) == 0x10000000000000000);
    }
    let mut v: u64 = 0;
    let mut i: usize = 0;
    while i < 8
        invariant
            len == b@.len(),
            pow256(8) == 0x10000000000000000,
            p + 8 <= b@.len(),
            i <= 8,
            v == read_prefix(b@, p as int, i as nat),
            v < pow256(i as nat),
        decreases 8 - i,
    {
        let x = b[p + i] as u64;
        proof {
            assert(v * 256 + x < pow256((i + 1) as nat)) by (nonlinear_arith)
                requires
                    v < pow256(i as nat),
                    x < 256,
                    pow256((i + 1) as nat) == 256 * pow256(i as nat),
            ;
            assert(pow256((i + 1) as nat) <= pow256(8)) by {
                lemma_pow256_mono((i + 1) as nat, 8);
            }
        }
        v = v * 256 + x;
        i = i + 1;
    }
    proof {
        reveal_with_fuel(read_prefix, 9);
    }
    v
}

/// The number in the first `k` big-endian bytes of `b` from `p`.
pub open spec fn read_prefix(b: Seq<u8>, p: int, k: nat) -> int
    decreases k,
{
    if k == 0 {
        0
    } else {
        read_prefix(b, p, (k - 1) as nat) * 256 + b[p + k - 1]
    }
}

pub open spec fn pow256(e: nat) -> int
    decreases e,
{
    if e == 0 {
        1
    } else {
        256 * pow256((e - 1) as nat)
    }
}

proof fn lemma_pow256_mono(a: nat, b: nat)
    requires
        a <= b,
    ensures
        1 <= pow256(a) <= pow256(b),
    decreases b,
{
    if b > 0 {
        if a == b {
            lemma_pow256_mono((b - 1) as nat, (b - 1) as nat);
        } else {
            lemma_pow256_mono(a, (b - 1) as nat);
        }
    }
}

fn parse_list_at(b: &Vec<u8>, p: usize) -> (r: Option<(Vec<Address>, usize)>)
    ensures
        match r {
            Some((v, e)) => parse_list(b@, p as int) == Some((addrs(v@), e as int)),
            None => parse_list(b@, p as int) is None,
        },
{
    let len = b.len();
    if len < 8 || p > len - 8 {
        return None;
    }
    let n = read_u64_at(b, p);
    let room = (len - p - 8) as u64;
    if n > room / 20 {
        return None;
    }
    let start = p + 8;
    let mut v: Vec<Address> = Vec::new();
    let mut i: usize = 0;
    while (i as u64) < n
        invariant
            len == b@.len(),
            start == p + 8,
            start + 20 * n <= len,
            i <= n,
            v@.len() == i,
            forall|j: int| 0 <= j < i ==> v@[j]@ == b@.subrange(start + 20 * j, start + 20 + 20 * j),
        decreases n - i,
    {
        let a = Address::from_slice_at(b.as_slice(), start + 20 * i);
        v.push(a);
        i = i + 1;
    }
    let ghost expect = Seq::new(n as nat, |j: int| b@.subrange(p + 8 + 20 * j, p + 28 + 20 * j));
    assert(addrs(v@) =~= expect);
    Some((v, start + 20 * i))
}

fn parse_group_at(b: &Vec<u8>, p: usize) -> (r: Option<(GroupEntry, usize)>)
    ensures
        match r {
            Some((g, e)) => parse_group(b@, p as int) == Some(
                (g.address@, (g.group.name@, g.group.parent@, addrs(g.group.accounts@), addrs(g.group.children@)), e as int),
            ),
            None => parse_group(b@, p as int) is None,
        },
{
    let len = b.len();
    if len < 48 || p > len - 48 {
        return None;
    }
    let nl = read_u64_at(b, p + 40);
    if nl > (len - p - 48) as u64 {
        return None;
    }
    let address = Address::from_slice_at(b.as_slice(), p);
    let parent = Address::from_slice_at(b.as_slice(), p + 20);
    let name_end = p + 48 + nl as usize;
    let mut nb: Vec<u8> = Vec::new();
    let mut k: usize = p + 48;
    while k < name_end
        invariant
            len == b@.len(),
            p + 48 <= k <= name_end,
            name_end <= len,
            nb@ =~= b@.subrange(p + 48, k as int),
        decreases name_end - k,
    {
        nb.push(b[k]);
        k = k + 1;
    }
    let name = match string_from_utf8(nb) {
        Some(s) => s,
        None => {
            return None;
        },
    };
    let (accounts, q) = match parse_list_at(b, name_end) {
        Some(x) => x,
        None => {
            return None;
        },
    };
    let (children, e) = match parse_list_at(b, q) {
        Some(x) => x,
        None => {
            return None;
        },
    };
    let group = Group { name, parent, accounts, children };
    Some((GroupEntry { address, group }, e))
}

proof fn lemma_parse_groups_stays_absent(b: Seq<u8>, p: int, i: nat, n: nat)
    requires
        i <= n,
        parse_groups(b, p, i) is None,
    ensures
        parse_groups(b, p, n) is None,
    decreases n - i,
{
    if i < n {
        lemma_parse_groups_stays_absent(b, p, i, (n - 1) as nat);
    }
}

/// The group manager whose serialized state is `b`; `None` where `b` is not one.
pub fn deserialize_groups(b: &Vec<u8>) -> (r: Option<GroupManager>)
    ensures
        match r {
            Some(g) => g.wf() && parse_state(b@) == Some((g.keys(), g.models())),
            None => parse_state(b@) is None,
        },
{
    if b.len() < 8 {
        return None;
    }
    let n = read_u64_at(b, 0);
    let mut groups: Vec<GroupEntry> = Vec::new();
    let mut pos: usize = 8;
    let mut i: u64 = 0;
    while i < n
        invariant
            n == read_be64(b@, 0),
            i <= n,
            parse_groups(b@, 8, i as nat) == Some((keys_of(groups@), models_of(groups@), pos as int)),
        decreases n - i,
    {
        match parse_group_at(b, pos) {
            None => {
                proof {
                    lemma_parse_groups_stays_absent(b@, 8, (i + 1) as nat, n as nat);
                }
                return None;
            },
            Some((g, e)) => {
                let ghost before = groups@;
                groups.push(g);
                proof {
                    assert(keys_of(groups@) =~= keys_of(before).push(g.address@));
                    assert(models_of(groups@) =~= models_of(before).push(
                        (g.group.name@, g.group.parent@, addrs(g.group.accounts@), addrs(g.group.children@)),
                    ));
                }
                pos = e;
            },
        }
        i = i + 1;
    }
    if pos != b.len() {
        return None;
    }
    let m = GroupManager { groups };
    assert(parse_state(b@) == if m.keys().no_duplicates() {
        Some((m.keys(), m.models()))
    } else {
        None::<(Seq<Seq<u8>>, Seq<GroupModel>)>
    });
    let mut a: usize = 0;
    while a < m.groups.len()
        invariant
            parse_state(b@) == if m.keys().no_duplicates() {
                Some((m.keys(), m.models()))
            } else {
                None::<(Seq<Seq<u8>>, Seq<GroupModel>)>
            },
            forall|x: int, y: int| 0 <= x < y < m.keys().len() && x < a ==> m.keys()[x] != m.keys()[y],
        decreases m.groups@.len() - a,
    {
        let mut c: usize = a + 1;
        while c < m.groups.len()
            invariant
                parse_state(b@) == if m.keys().no_duplicates() {
                    Some((m.keys(), m.models()))
                } else {
                    None::<(Seq<Seq<u8>>, Seq<GroupModel>)>
                },
                a < m.groups@.len(),
                a + 1 <= c <= m.groups@.len(),
                forall|x: int, y: int| 0 <= x < y < m.keys().len() && x < a ==> m.keys()[x] != m.keys()[y],
                forall|y: int| a < y < c ==> m.keys()[a as int] != m.keys()[y],
            decreases m.groups@.len() - c,
        {
            if m.groups[a].address.same(&m.groups[c].address) {
                assert(!m.keys().no_duplicates()) by {
                    assert(m.keys()[a as int] == m.keys()[c as int]);
                }
                return None;
            }
            c = c + 1;
        }
        a = a + 1;
    }
    assert(m.keys().no_duplicates());
    Some(m)
}

} // verus!
