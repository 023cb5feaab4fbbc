//! Choosing the physical network adapter whose MAC address identifies the
//! machine, and rendering that address.
use vstd::prelude::*;
use crate::text::{chars_of, decimal, decimal_chars, extend_chars, hex_upper_byte, join, join_chars, push_hex_upper, string_of, views};

verus! {

/// The interface type of an Ethernet adapter (IANA ifType 6).
pub const IF_TYPE_ETHERNET_CSMACD: u32 = 6;

/// The interface type of an IEEE 802.11 wireless adapter (IANA ifType 71).
pub const IF_TYPE_IEEE80211: u32 = 71;

/// A network adapter as the system lists it: its interface type and its
/// physical address.
pub struct Adapter {
    pub if_type: u32,
    pub physical_address: Vec<u8>,
}

/// Whether an adapter is a physical Ethernet or wireless adapter with a
/// six-byte address that is not all zeros.
pub open spec fn is_physical_adapter(if_type: u32, address: Seq<u8>) -> bool {
    &&& address.len() == 6
    &&& (if_type == IF_TYPE_ETHERNET_CSMACD || if_type == IF_TYPE_IEEE80211)
    &&& exists|i: int| 0 <= i < address.len() && address[i] != 0
}

/// A MAC address as text: two upper-case hexadecimal digits per byte,
/// separated by `:`.
pub open spec fn mac_text(address: Seq<u8>) -> Seq<char> {
    join(address.map_values(|b: u8| hex_upper_byte(b)), ":"@)
}

/// The first physical adapter in a list, if any.
pub open spec fn first_physical(adapters: Seq<Adapter>) -> Option<int>
    decreases adapters.len(),
{
    if adapters.len() == 0 {
        None
    } else if is_physical_adapter(adapters[0].if_type, adapters[0].physical_address@) {
        Some(0)
    } else {
        match first_physical(adapters.drop_first()) {
            Some(i) => Some(i + 1),
            None => None,
        }
    }
}

/// The MAC address of the first physical adapter, or the error reported
/// when there is none.
pub open spec fn mac_from_adapters_spec(adapters: Seq<Adapter>) -> Result<Seq<char>, Seq<char>> {
    match first_physical(adapters) {
        Some(i) => Ok(mac_text(adapters[i].physical_address@)),
        None => Err("未找到有效物理网卡 MAC"@),
    }
}

/// Renders a MAC address.
pub fn format_mac(address: &[u8]) -> (r: String)
    ensures
        r@ == mac_text(address@),
{
    let mut pieces: Vec<Vec<char>> = Vec::new();
    let n = address.len();
    for i in 0..n
        invariant
            n == address@.len(),
            views(pieces@) == address@.take(i as int).map_values(|b: u8| hex_upper_byte(b)),
    {
        let mut p: Vec<char> = Vec::new();
        push_hex_upper(&mut p, address[i]);
        let ghost before = views(pieces@);
        pieces.push(p);
        assert(views(pieces@) =~= before.push(p@));
        assert(address@.take(i + 1).map_values(|b: u8| hex_upper_byte(b)) =~= address@.take(
            i as int,
        ).map_values(|b: u8| hex_upper_byte(b)).push(hex_upper_byte(address@[i as int])));
        assert(p@ =~= hex_upper_byte(address@[i as int]));
    }
    assert(address@.take(n as int) =~= address@);
    let sep = chars_of(":");
    let joined = join_chars(&pieces, sep.as_slice());
    string_of(joined.as_slice())
}

fn physical(a: &Adapter) -> (r: bool)
    ensures
        r == is_physical_adapter(a.if_type, a.physical_address@),
{
    if a.physical_address.len() != 6 {
        return false;
    }
    if !(a.if_type == IF_TYPE_ETHERNET_CSMACD || a.if_type == IF_TYPE_IEEE80211) {
        return false;
    }
    let n = a.physical_address.len();
    for i in 0..n
        invariant
            n == a.physical_address@.len() == 6,
            a.if_type == IF_TYPE_ETHERNET_CSMACD || a.if_type == IF_TYPE_IEEE80211,
            forall|j: int| 0 <= j < i ==> a.physical_address@[j] == 0,
    {
        if a.physical_address[i] != 0 {
            assert(a.physical_address@[i as int] != 0);
            return true;
        }
    }
    false
}

proof fn lemma_first_physical_at(adapters: Seq<Adapter>, i: int)
    requires
        0 <= i < adapters.len(),
        forall|j: int|
            0 <= j < i ==> !is_physical_adapter(
                #[trigger] adapters[j].if_type,
                adapters[j].physical_address@,
            ),
        is_physical_adapter(adapters[i].if_type, adapters[i].physical_address@),
    ensures
        first_physical(adapters) == Some(i),
    decreases i,
{
    if i > 0 {
        let t = adapters.drop_first();
        assert forall|j: int| 0 <= j < i - 1 implies !is_physical_adapter(
            #[trigger] t[j].if_type,
            t[j].physical_address@,
        ) by {
            assert(t[j] == adapters[j + 1]);
        }
        assert(!is_physical_adapter(adapters[0].if_type, adapters[0].physical_address@));
        lemma_first_physical_at(t, i - 1);
    }
}

proof fn lemma_first_physical_none(adapters: Seq<Adapter>)
    requires
        forall|j: int|
            0 <= j < adapters.len() ==> !is_physical_adapter(
                #[trigger] adapters[j].if_type,
                adapters[j].physical_address@,
            ),
    ensures
        first_physical(adapters) is None,
    decreases adapters.len(),
{
    if adapters.len() > 0 {
        let t = adapters.drop_first();
        assert forall|j: int| 0 <= j < t.len() implies !is_physical_adapter(
            #[trigger] t[j].if_type,
            t[j].physical_address@,
        ) by {
            assert(t[j] == adapters[j + 1]);
        }
        assert(!is_physical_adapter(adapters[0].if_type, adapters[0].physical_address@));
        lemma_first_physical_none(t);
    }
}

/// The MAC address of the first physical adapter in the system's list.
pub fn mac_from_adapters(adapters: &[Adapter]) -> (r: Result<String, String>)
    ensures
        match r {
            Ok(s) => mac_from_adapters_spec(adapters@) == Ok::<Seq<char>, Seq<char>>(s@),
            Err(e) => mac_from_adapters_spec(adapters@) == Err::<Seq<char>, Seq<char>>(e@),
        },
{
    let n = adapters.len();
    for i in 0..n
        invariant
            n == adapters@.len(),
            forall|j: int|
                0 <= j < i ==> !is_physical_adapter(
                    #[trigger] adapters@[j].if_type,
                    adapters@[j].physical_address@,
                ),
    {
        if physical(&adapters[i]) {
            proof {
                lemma_first_physical_at(adapters@, i as int);
            }
            return Ok(format_mac(adapters[i].physical_address.as_slice()));
        }
    }
    proof {
        lemma_first_physical_none(adapters@);
    }
    Err("未找到有效物理网卡 MAC".to_owned())
}

/// The reason reported when the adapter list cannot be read.
pub open spec fn adapter_query_error_text(code: u32) -> Seq<char> {
    "GetAdaptersAddresses 返回错误码 "@ + decimal(code as nat)
}

/// The reason reported when the adapter list cannot be read, given the
/// system's error code.
pub fn adapter_query_error(code: u32) -> (r: String)
    ensures
        r@ == adapter_query_error_text(code),
{
    let mut v = chars_of("GetAdaptersAddresses 返回错误码 ");
    let d = decimal_chars(code as u64);
    extend_chars(&mut v, d.as_slice());
    string_of(v.as_slice())
}

/// The MAC address comes from the first physical adapter in the list:
/// one with a six-byte Ethernet or wireless address that is not all
/// zeros, every earlier adapter failing that test; there is none only when
/// no adapter passes it.
pub proof fn lemma_first_physical_adapter(adapters: Seq<Adapter>)
    ensures
        match first_physical(adapters) {
            Some(i) => {
                &&& 0 <= i < adapters.len()
                &&& is_physical_adapter(adapters[i].if_type, adapters[i].physical_address@)
                &&& forall|j: int|
                    0 <= j < i ==> !is_physical_adapter(
                        #[trigger] adapters[j].if_type,
                        adapters[j].physical_address@,
                    )
            },
            None => forall|j: int|
                0 <= j < adapters.len() ==> !is_physical_adapter(
                    #[trigger] adapters[j].if_type,
                    adapters[j].physical_address@,
                ),
        },
    decreases adapters.len(),
{
    if adapters.len() > 0 && !is_physical_adapter(adapters[0].if_type, adapters[0].physical_address@) {
        let t = adapters.drop_first();
        lemma_first_physical_adapter(t);
        match first_physical(t) {
            Some(i) => {
                assert(t[i] == adapters[i + 1]);
                assert forall|j: int| 0 <= j < i + 1 implies !is_physical_adapter(
                    #[trigger] adapters[j].if_type,
                    adapters[j].physical_address@,
                ) by {
                    if j > 0 {
                        assert(adapters[j] == t[j - 1]);
                    }
                }
            },
            None => {
                assert forall|j: int| 0 <= j < adapters.len() implies !is_physical_adapter(
                    #[trigger] adapters[j].if_type,
                    adapters[j].physical_address@,
                ) by {
                    if j > 0 {
                        assert(adapters[j] == t[j - 1]);
                    }
                }
            },
        }
    }
}

/// Whether an adapter has what makes it the machine's network card: an
/// Ethernet (6) or wireless (71) interface with a six-byte address that has
/// a byte other than zero.
pub open spec fn real_network_card(a: Adapter) -> bool {
    &&& (a.if_type == 6 || a.if_type == 71)
    &&& a.physical_address@.len() == 6
    &&& exists|k: int| 0 <= k < 6 && #[trigger] a.physical_address@[k] != 0
}

/// The MAC address is that of the first adapter in the list that is an
/// Ethernet or wireless interface with a six-byte address having some
/// non-zero byte, written as its bytes in hexadecimal joined by `:`; there
/// is none only when no adapter is such a card.
pub proof fn lemma_mac_of_first_card(adapters: Seq<Adapter>)
    ensures
        match mac_from_adapters_spec(adapters) {
            Ok(m) => exists|i: int|
                {
                    &&& 0 <= i < adapters.len()
                    &&& real_network_card(#[trigger] adapters[i])
                    &&& forall|j: int| 0 <= j < i ==> !real_network_card(#[trigger] adapters[j])
                    &&& m == mac_text(adapters[i].physical_address@)
                },
            Err(_) => forall|j: int| 0 <= j < adapters.len() ==> !real_network_card(#[trigger] adapters[j]),
        },
{
    lemma_first_physical_adapter(adapters);
    assert forall|j: int| 0 <= j < adapters.len() implies (real_network_card(#[trigger] adapters[j])
        <==> is_physical_adapter(adapters[j].if_type, adapters[j].physical_address@)) by {
        let a = adapters[j].physical_address@;
        if real_network_card(adapters[j]) {
            let k = choose|k: int| 0 <= k < 6 && #[trigger] a[k] != 0;
            assert(a[k] != 0);
        }
        if is_physical_adapter(adapters[j].if_type, a) {
            let k = choose|k: int| 0 <= k < a.len() && a[k] != 0;
            assert(a[k] != 0);
        }
    }
    if let Some(i) = first_physical(adapters) {
        assert(real_network_card(adapters[i]));
    }
}

/// An address of `n` bytes is shown as `3n - 1` characters: two digits
/// per byte and a colon between each two (17 for a six-byte address).
pub proof fn lemma_mac_text_len(address: Seq<u8>)
    requires
        address.len() >= 1,
    ensures
        mac_text(address).len() == 3 * address.len() - 1,
    decreases address.len(),
{
    let parts = address.map_values(|b: u8| hex_upper_byte(b));
    assert(":"@.len() == 1) by {
        reveal_strlit(":");
    }
    if address.len() > 1 {
        let d = address.drop_last();
        lemma_mac_text_len(d);
        assert(d.map_values(|b: u8| hex_upper_byte(b)) =~= parts.drop_last());
    }
}

} // verus!
