//! The ARP (neighbor) table: parsing what the OS reports of it, MAC
//! address normalisation and the vendor lookup by OUI.
//!
//! Reading `/proc/net/arp` or running `arp -a` is I/O and happens outside
//! the library; the text it yields is parsed here.

use vstd::prelude::*;
use vstd::string::StringExecFns;
use vstd::utf8::{decode_utf8, encode_utf8, is_char_boundary};

use crate::ip::{parse_ip_addr, spec_parse_ip_addr, IpAddress};
use crate::text::{
    all_ascii, ascii_lower, ascii_upper,
    chars_of, contains_char, find, is_first_match, lemma_find, lemma_first_match_unique, lemma_first_word, matches_at, replace_char, spec_find, spec_lines, spec_replace_char,
    spec_is_whitespace, spec_to_lowercase, spec_to_uppercase, spec_words, split_lines,
    split_words, str_eq, string_of, to_lowercase, to_uppercase, views_of,
};

verus! {

broadcast use vstd::utf8::encode_utf8_decode_utf8, vstd::utf8::encode_utf8_valid_utf8;

// ---------------------------------------------------------------------
// The table.
// ---------------------------------------------------------------------

/// No IP address occurs twice among the entries.
pub open spec fn unique_ips(entries: Seq<(IpAddress, String)>) -> bool {
    forall|i: int, j: int| 0 <= i < j < entries.len() ==> entries[i].0 != entries[j].0
}

/// Whether some entry is for `ip`.
pub open spec fn has_ip(entries: Seq<(IpAddress, String)>, ip: IpAddress) -> bool {
    exists|i: int| 0 <= i < entries.len() && entries[i].0 == ip
}

/// The entries as a map from IP address to MAC address.
pub open spec fn entries_map(entries: Seq<(IpAddress, String)>) -> Map<IpAddress, Seq<char>> {
    Map::new(
        |ip: IpAddress| has_ip(entries, ip),
        |ip: IpAddress| entries[choose|i: int| 0 <= i < entries.len() && entries[i].0 == ip].1@,
    )
}

/// With unique IP addresses, the map holds each entry.
proof fn lemma_entry(entries: Seq<(IpAddress, String)>, i: int)
    requires
        unique_ips(entries),
        0 <= i < entries.len(),
    ensures
        entries_map(entries).contains_key(entries[i].0),
        entries_map(entries)[entries[i].0] == entries[i].1@,
{
    let ip = entries[i].0;
    assert(has_ip(entries, ip));
    let k = choose|k: int| 0 <= k < entries.len() && entries[k].0 == ip;
    assert(k == i);
}

/// Records `mac` for `ip` among `entries`, replacing what was recorded for
/// it before.
fn insert_entry(entries: &mut Vec<(IpAddress, String)>, ip: IpAddress, mac: String)
    requires
        unique_ips(old(entries)@),
    ensures
        unique_ips(final(entries)@),
        entries_map(final(entries)@) == entries_map(old(entries)@).insert(ip, mac@),
{
    let ghost before = entries@;
    let mac_view = Ghost(mac@);
    let mut k: usize = 0;
    while k < entries.len()
        invariant
            entries@ == before,
            k <= entries@.len(),
            forall|j: int| 0 <= j < k ==> entries@[j].0 != ip,
        ensures
            entries@ == before,
            k <= entries@.len(),
            forall|j: int| 0 <= j < k ==> entries@[j].0 != ip,
            k < entries@.len() ==> entries@[k as int].0 == ip,
        decreases entries.len() - k,
    {
        if entries[k].0 == ip {
            break;
        }
        k = k + 1;
    }
    if k < entries.len() {
        entries.set(k, (ip, mac));
        let ghost after = entries@;
        assert forall|m: int| 0 <= m < after.len() implies #[trigger] after[m].0 == before[m].0 by {}
        assert forall|i: int, j: int| 0 <= i < j < after.len() implies after[i].0 != after[j].0 by {
            assert(before[i].0 != before[j].0);
        }
        assert forall|x: IpAddress| #[trigger] entries_map(after).contains_key(x) <==> entries_map(
            before,
        ).insert(ip, mac_view@).contains_key(x) by {
            if x != ip {
                if has_ip(after, x) {
                    let i = choose|i: int| 0 <= i < after.len() && after[i].0 == x;
                    assert(before[i].0 == x);
                }
                if has_ip(before, x) {
                    let i = choose|i: int| 0 <= i < before.len() && before[i].0 == x;
                    assert(after[i].0 == x);
                }
            } else {
                assert(after[k as int].0 == ip);
            }
        }
        assert forall|x: IpAddress| #[trigger] entries_map(after).contains_key(x) implies entries_map(
            after,
        )[x] == entries_map(before).insert(ip, mac_view@)[x] by {
            let i = choose|i: int| 0 <= i < after.len() && after[i].0 == x;
            lemma_entry(after, i);
            if x != ip {
                assert(i != k);
                lemma_entry(before, i);
            } else {
                assert(i == k);
            }
        }
        assert(entries_map(after) =~= entries_map(before).insert(ip, mac_view@));
    } else {
        entries.push((ip, mac));
        let ghost after = entries@;
        assert forall|i: int, j: int| 0 <= i < j < after.len() implies after[i].0 != after[j].0 by {
            if j < before.len() {
                assert(before[i].0 != before[j].0);
            }
        }
        assert forall|x: IpAddress| #[trigger] entries_map(after).contains_key(x) <==> entries_map(
            before,
        ).insert(ip, mac_view@).contains_key(x) by {
            if has_ip(after, x) && x != ip {
                let i = choose|i: int| 0 <= i < after.len() && after[i].0 == x;
                assert(before[i].0 == x);
            }
            if has_ip(before, x) {
                let i = choose|i: int| 0 <= i < before.len() && before[i].0 == x;
                assert(after[i].0 == x);
            }
            if x == ip {
                assert(after[before.len() as int].0 == ip);
            }
        }
        assert forall|x: IpAddress| #[trigger] entries_map(after).contains_key(x) implies entries_map(
            after,
        )[x] == entries_map(before).insert(ip, mac_view@)[x] by {
            let i = choose|i: int| 0 <= i < after.len() && after[i].0 == x;
            lemma_entry(after, i);
            if i < before.len() {
                lemma_entry(before, i);
            }
        }
        assert(entries_map(after) =~= entries_map(before).insert(ip, mac_view@));
    }
}

/// A snapshot of the ARP table: the MAC address (normalised) last reported
/// for each IP address.
///
/// The entries are held in a vector kept free of duplicate addresses (the
/// type invariant), not in a `HashMap` keyed by address: vstd specifies
/// `HashMap` only for key types it knows to hash and compare
/// deterministically (the primitive integers, `bool` and boxes of them),
/// and `IpAddress`, an enum of this crate with derived `Hash` and `Eq`, is
/// not among them; without that, no operation on such a map carries a
/// contract, and stating it for `IpAddress` would be an unproved
/// assumption.
pub struct ArpTable {
    entries: Vec<(IpAddress, String)>,
}

impl ArpTable {
    /// No IP address occurs twice among the entries.
    #[verifier::type_invariant]
    spec fn wf(&self) -> bool {
        unique_ips(self.entries@)
    }

    /// The table as a map from IP address to MAC address.
    pub closed spec fn view(&self) -> Map<IpAddress, Seq<char>> {
        entries_map(self.entries@)
    }

    /// An empty table.
    pub fn new() -> (r: ArpTable)
        ensures
            r.view() == Map::<IpAddress, Seq<char>>::empty(),
    {
        let r = ArpTable { entries: Vec::new() };
        assert(r.view() =~= Map::<IpAddress, Seq<char>>::empty());
        r
    }

    /// Records `mac` for `ip`, replacing what was recorded for it before.
    pub fn insert(&mut self, ip: IpAddress, mac: String)
        ensures
            final(self).view() == old(self).view().insert(ip, mac@),
    {
        proof {
            use_type_invariant(&*self);
        }
        let mut entries: Vec<(IpAddress, String)> = Vec::new();
        std::mem::swap(&mut entries, &mut self.entries);
        insert_entry(&mut entries, ip, mac);
        self.entries = entries;
    }

    /// The MAC address recorded for `ip`, if any.
    pub fn get(&self, ip: IpAddress) -> (r: Option<&String>)
        ensures
            match r {
                Some(mac) => self.view().contains_key(ip) && mac@ == self.view()[ip],
                None => !self.view().contains_key(ip),
            },
    {
        proof {
            use_type_invariant(self);
        }
        let mut k: usize = 0;
        while k < self.entries.len()
            invariant
                unique_ips(self.entries@),
                k <= self.entries@.len(),
                forall|j: int| 0 <= j < k ==> self.entries@[j].0 != ip,
            decreases self.entries.len() - k,
        {
            if self.entries[k].0 == ip {
                proof {
                    lemma_entry(self.entries@, k as int);
                }
                return Some(&self.entries[k].1);
            }
            k = k + 1;
        }
        None
    }

    /// The entries, one per IP address, in the order they were first
    /// recorded.
    pub fn entries(&self) -> (r: &Vec<(IpAddress, String)>)
        ensures
            unique_ips(r@),
            forall|i: int|
                0 <= i < r@.len() ==> self.view().contains_key(#[trigger] r@[i].0) && self.view()[r@[i].0]
                    == r@[i].1@,
            forall|ip: IpAddress|
                self.view().contains_key(ip) ==> exists|i: int| 0 <= i < r@.len() && r@[i].0 == ip,
    {
        proof {
            use_type_invariant(self);
            assert forall|i: int|
                0 <= i < self.entries@.len() implies self.view().contains_key(
                #[trigger] self.entries@[i].0,
            ) && self.view()[self.entries@[i].0] == self.entries@[i].1@ by {
                lemma_entry(self.entries@, i);
            }
        }
        &self.entries
    }
}

/// The map built by inserting, in order, every entry that is present.
pub open spec fn table_of(entries: Seq<Option<(IpAddress, Seq<char>)>>) -> Map<IpAddress, Seq<char>>
    decreases entries.len(),
{
    if entries.len() == 0 {
        Map::empty()
    } else {
        let m = table_of(entries.drop_last());
        match entries.last() {
            Some((ip, mac)) => m.insert(ip, mac),
            None => m,
        }
    }
}

/// Whether entry `e` reports something for `ip`.
pub open spec fn reports(e: Option<(IpAddress, Seq<char>)>, ip: IpAddress) -> bool {
    e matches Some((x, _)) && x == ip
}

/// The table holds an address exactly when some entry reported it, and
/// then holds what the last entry reporting it said.
pub proof fn lemma_table_last_report_wins(entries: Seq<Option<(IpAddress, Seq<char>)>>, ip: IpAddress)
    ensures
        table_of(entries).contains_key(ip) <==> exists|j: int|
            0 <= j < entries.len() && reports(#[trigger] entries[j], ip),
        table_of(entries).contains_key(ip) ==> exists|j: int|
            0 <= j < entries.len() && #[trigger] entries[j] == Some((ip, table_of(entries)[ip]))
                && forall|k: int| j < k < entries.len() ==> !reports(#[trigger] entries[k], ip),
    decreases entries.len(),
{
    if entries.len() > 0 {
        let rest = entries.drop_last();
        lemma_table_last_report_wins(rest, ip);
        let last = entries.len() - 1;
        assert forall|j: int| 0 <= j < rest.len() implies #[trigger] entries[j] == rest[j] by {}
        if reports(entries[last], ip) {
            assert(entries[last] == Some((ip, table_of(entries)[ip])));
        } else {
            if table_of(entries).contains_key(ip) {
                let j = choose|j: int|
                    0 <= j < rest.len() && #[trigger] rest[j] == Some((ip, table_of(rest)[ip]))
                        && forall|k: int| j < k < rest.len() ==> !reports(#[trigger] rest[k], ip);
                assert(entries[j] == Some((ip, table_of(entries)[ip])));
            }
            if exists|j: int| 0 <= j < entries.len() && reports(#[trigger] entries[j], ip) {
                let j = choose|j: int| 0 <= j < entries.len() && reports(#[trigger] entries[j], ip);
                assert(reports(rest[j], ip));
            }
        }
    }
}

// ---------------------------------------------------------------------
// MAC addresses and vendors.
// ---------------------------------------------------------------------

/// A MAC address in the canonical form: `-` separators replaced by `:`,
/// then lowercased.
pub open spec fn spec_normalize_mac(mac: Seq<char>) -> Seq<char> {
    spec_to_lowercase(spec_replace_char(mac, '-', seq![':']))
}

/// `-` becomes `:`; every other char stays.
pub open spec fn dash_to_colon(c: char) -> char {
    if c == '-' {
        ':'
    } else {
        c
    }
}

/// The canonical form of an ASCII MAC address, char by char: `-` becomes
/// `:` and `A`-`Z` become `a`-`z`.
pub open spec fn ascii_normalize_mac(mac: Seq<char>) -> Seq<char> {
    mac.map_values(|c: char| ascii_lower(dash_to_colon(c)))
}

/// Replacing every `-` by `:` maps each char on its own.
proof fn lemma_replace_dash(s: Seq<char>)
    ensures
        spec_replace_char(s, '-', seq![':']) == s.map_values(|c: char| dash_to_colon(c)),
    decreases s.len(),
{
    if s.len() > 0 {
        lemma_replace_dash(s.drop_last());
        assert(s.map_values(|c: char| dash_to_colon(c)) =~= s.drop_last().map_values(
            |c: char| dash_to_colon(c),
        ) + seq![dash_to_colon(s.last())]);
    } else {
        assert(s.map_values(|c: char| dash_to_colon(c)) =~= s);
    }
}

/// Normalises a MAC address: `aa-BB-cc-...` becomes `aa:bb:cc:...`.
pub fn normalize_mac(mac: &str) -> (r: String)
    ensures
        r@ == spec_normalize_mac(mac@),
        all_ascii(mac@) ==> r@ == ascii_normalize_mac(mac@),
{
    let replaced = replace_char(mac, '-', ":");
    proof {
        reveal_strlit(":");
        assert(":"@ =~= seq![':']);
        lemma_replace_dash(mac@);
    }
    let r = to_lowercase(replaced.as_str());
    proof {
        if all_ascii(mac@) {
            assert(all_ascii(replaced@));
            assert(r@ =~= ascii_normalize_mac(mac@));
        }
    }
    r
}

/// The first 8 bytes of a MAC address as text, when they end at a char
/// boundary (what `str::get(0..8)` returns).
pub open spec fn spec_oui_prefix(mac: Seq<char>) -> Option<Seq<char>> {
    let bytes = encode_utf8(mac);
    if is_char_boundary(bytes, 8) {
        Some(decode_utf8(bytes.take(8)))
    } else {
        None
    }
}

/// The vendor of an upper-case OUI in the built-in table.
pub open spec fn spec_vendor_of(oui: Seq<char>) -> Option<Seq<char>> {
    if oui == "A4:77:33"@ || oui == "AC:BC:32"@ || oui == "F0:18:98"@ || oui == "00:1B:63"@ || oui == "00:1E:C2"@ {
        Some("Apple"@)
    } else if oui == "00:1A:11"@ || oui == "3C:5A:B4"@ || oui == "F4:F5:D8"@ {
        Some("Google"@)
    } else if oui == "B8:27:EB"@ || oui == "DC:A6:32"@ || oui == "E4:5F:01"@ {
        Some("Raspberry Pi Foundation"@)
    } else if oui == "00:50:56"@ || oui == "00:0C:29"@ {
        Some("VMware"@)
    } else if oui == "08:00:27"@ {
        Some("VirtualBox"@)
    } else if oui == "FC:EC:DA"@ || oui == "74:C2:46"@ {
        Some("Amazon Technologies"@)
    } else if oui == "00:17:88"@ {
        Some("Philips (Hue)"@)
    } else if oui == "B0:BE:76"@ || oui == "5C:0A:5B"@ || oui == "18:D6:C7"@ {
        Some("Samsung"@)
    } else if oui == "F8:1A:67"@ || oui == "50:C7:BF"@ || oui == "94:83:C4"@ {
        Some("TP-Link"@)
    } else {
        None
    }
}

/// What `lookup_vendor` returns: the vendor of the upper-cased first 8
/// bytes of the MAC address.
pub open spec fn spec_lookup_vendor(mac: Seq<char>) -> Option<Seq<char>> {
    match spec_oui_prefix(mac) {
        None => None,
        Some(prefix) => spec_vendor_of(spec_to_uppercase(prefix)),
    }
}

/// What `lookup_vendor` returns for an ASCII MAC address: the vendor of
/// its first 8 chars, upper-cased; nothing when it is shorter.
pub open spec fn ascii_lookup_vendor(mac: Seq<char>) -> Option<Seq<char>> {
    if mac.len() >= 8 {
        spec_vendor_of(mac.take(8).map_values(|c: char| ascii_upper(c)))
    } else {
        None
    }
}

/// For ASCII text, the first 8 bytes are the first 8 chars.
proof fn lemma_ascii_oui_prefix(mac: Seq<char>)
    requires
        all_ascii(mac),
    ensures
        spec_oui_prefix(mac) == (if mac.len() >= 8 {
            Some(mac.take(8))
        } else {
            None::<Seq<char>>
        }),
{
    broadcast use vstd::utf8::is_ascii_chars_encode_utf8;

    let bytes = encode_utf8(mac);
    assert forall|i: int| 0 <= i < mac.len() implies '\0' <= #[trigger] mac[i] <= '\u{7f}' by {
        let c = mac[i];
        assert((c as u32) < 128);
        vstd::utf8::char_is_scalar(c);
        vstd::utf8::char_u32_cast(c, c as u32);
        assert(c <= '\u{7f}');
        assert('\0' <= c);
    }
    assert(vstd::utf8::is_ascii_chars(mac));
    assert(bytes.len() == mac.len());
    if mac.len() >= 8 {
        if mac.len() == 8 {
            vstd::utf8::is_char_boundary_start_end_of_seq(bytes);
        } else {
            vstd::utf8::is_char_boundary_iff_not_is_continuation_byte(bytes, 8);
            assert(bytes[8] == mac[8] as u8);
        }
        let head = mac.take(8);
        assert(vstd::utf8::is_ascii_chars(head));
        assert(encode_utf8(head) =~= bytes.take(8)) by {
            assert(encode_utf8(head).len() == 8);
            assert forall|i: int| 0 <= i < 8 implies encode_utf8(head)[i] == bytes.take(8)[i] by {
                assert(head[i] == mac[i]);
            }
        }
    } else {
        assert(!is_char_boundary(bytes, 8));
    }
}

/// Small built-in OUI table for common vendors: the vendor whose OUI
/// (the first 8 characters of the MAC address, case-insensitively) this is.
pub fn lookup_vendor(mac: &str) -> (r: Option<String>)
    ensures
        match r {
            Some(vendor) => spec_lookup_vendor(mac@) == Some(vendor@),
            None => spec_lookup_vendor(mac@) is None,
        },
        all_ascii(mac@) ==> match r {
            Some(vendor) => ascii_lookup_vendor(mac@) == Some(vendor@),
            None => ascii_lookup_vendor(mac@) is None,
        },
{
    proof {
        if all_ascii(mac@) {
            lemma_ascii_oui_prefix(mac@);
        }
    }
    if !mac.is_char_boundary(8) {
        return None;
    }
    let (prefix, _) = mac.split_at(8);
    assert(encode_utf8(prefix@) =~= encode_utf8(mac@).take(8));
    proof {
        if all_ascii(mac@) {
            assert(prefix@ == mac@.take(8));
            assert(all_ascii(prefix@));
        }
    }
    let upper = to_uppercase(prefix);
    let o = upper.as_str();
    if str_eq(o, "A4:77:33") || str_eq(o, "AC:BC:32") || str_eq(o, "F0:18:98") || str_eq(o, "00:1B:63") || str_eq(o, "00:1E:C2") {
        Some(String::from_str("Apple"))
    } else if str_eq(o, "00:1A:11") || str_eq(o, "3C:5A:B4") || str_eq(o, "F4:F5:D8") {
        Some(String::from_str("Google"))
    } else if str_eq(o, "B8:27:EB") || str_eq(o, "DC:A6:32") || str_eq(o, "E4:5F:01") {
        Some(String::from_str("Raspberry Pi Foundation"))
    } else if str_eq(o, "00:50:56") || str_eq(o, "00:0C:29") {
        Some(String::from_str("VMware"))
    } else if str_eq(o, "08:00:27") {
        Some(String::from_str("VirtualBox"))
    } else if str_eq(o, "FC:EC:DA") || str_eq(o, "74:C2:46") {
        Some(String::from_str("Amazon Technologies"))
    } else if str_eq(o, "00:17:88") {
        Some(String::from_str("Philips (Hue)"))
    } else if str_eq(o, "B0:BE:76") || str_eq(o, "5C:0A:5B") || str_eq(o, "18:D6:C7") {
        Some(String::from_str("Samsung"))
    } else if str_eq(o, "F8:1A:67") || str_eq(o, "50:C7:BF") || str_eq(o, "94:83:C4") {
        Some(String::from_str("TP-Link"))
    } else {
        None
    }
}

/// Upper-casing after lower-casing, or twice, is upper-casing; both
/// mappings keep an ASCII char ASCII.
proof fn lemma_ascii_case(c: char)
    requires
        (c as u32) < 128,
    ensures
        ascii_upper(ascii_lower(c)) == ascii_upper(c),
        ascii_upper(ascii_upper(c)) == ascii_upper(c),
        (ascii_lower(c) as u32) < 128,
        (ascii_upper(c) as u32) < 128,
{
    vstd::utf8::char_u32_cast(c, c as u32);
    if 'A' <= c <= 'Z' {
        let l = ((c as u32) + 32) as char;
        assert((l as u32) == (c as u32) + 32);
        assert('a' <= l <= 'z');
    }
    if 'a' <= c <= 'z' {
        let u = ((c as u32) - 32) as char;
        assert((u as u32) == (c as u32) - 32);
        assert(!('a' <= u <= 'z'));
    }
}

/// The vendor of a MAC address does not depend on anything but its OUI,
/// the first 8 bytes, compared case-insensitively: two addresses whose
/// OUIs upper-case alike (or which both lack one) have the same vendor.
pub proof fn lemma_lookup_vendor_reads_upper_oui(m1: Seq<char>, m2: Seq<char>)
    requires
        match (spec_oui_prefix(m1), spec_oui_prefix(m2)) {
            (Some(p1), Some(p2)) => spec_to_uppercase(p1) == spec_to_uppercase(p2),
            (None, None) => true,
            _ => false,
        },
    ensures
        spec_lookup_vendor(m1) == spec_lookup_vendor(m2),
{
}

/// An ASCII MAC address has the same vendor as its upper-cased and its
/// lower-cased form.
pub proof fn lemma_ascii_lookup_vendor_ignores_case(mac: Seq<char>)
    requires
        all_ascii(mac),
    ensures
        ascii_lookup_vendor(mac.map_values(|c: char| ascii_upper(c))) == ascii_lookup_vendor(mac),
        ascii_lookup_vendor(mac.map_values(|c: char| ascii_lower(c))) == ascii_lookup_vendor(mac),
{
    if mac.len() >= 8 {
        let head = mac.take(8).map_values(|c: char| ascii_upper(c));
        let up = mac.map_values(|c: char| ascii_upper(c)).take(8).map_values(|c: char| ascii_upper(c));
        let low = mac.map_values(|c: char| ascii_lower(c)).take(8).map_values(|c: char| ascii_upper(c));
        assert forall|i: int| 0 <= i < 8 implies #[trigger] up[i] == head[i] && low[i] == head[i] by {
            lemma_ascii_case(mac[i]);
        }
        assert(up =~= head);
        assert(low =~= head);
    }
}

/// For an ASCII MAC address, normalising it first does not change its
/// vendor: `lookup_vendor(&normalize_mac(m))` is
/// `lookup_vendor(&m.replace('-', ":"))`. Both strings are ASCII, so the
/// ASCII clauses of the two functions apply to them.
pub proof fn lemma_normalize_keeps_vendor(mac: Seq<char>)
    requires
        all_ascii(mac),
    ensures
        all_ascii(spec_replace_char(mac, '-', seq![':'])),
        all_ascii(ascii_normalize_mac(mac)),
        ascii_lookup_vendor(ascii_normalize_mac(mac)) == ascii_lookup_vendor(
            spec_replace_char(mac, '-', seq![':']),
        ),
{
    lemma_replace_dash(mac);
    let dashed = mac.map_values(|c: char| dash_to_colon(c));
    let norm = ascii_normalize_mac(mac);
    assert forall|i: int| 0 <= i < mac.len() implies (#[trigger] dashed[i] as u32) < 128 && (
    norm[i] as u32) < 128 by {
        lemma_ascii_case(dashed[i]);
    }
    assert(norm =~= dashed.map_values(|c: char| ascii_lower(c)));
    lemma_ascii_lookup_vendor_ignores_case(dashed);
}

// ---------------------------------------------------------------------
// Parsing.
// ---------------------------------------------------------------------

/// The entry one line of `/proc/net/arp` contributes: the IP address in
/// the first column and the MAC address in the fourth, unless the line has
/// fewer than four columns, the first is no IP address, or the MAC address
/// is all zeros (an incomplete entry).
pub open spec fn spec_proc_arp_entry(line: Seq<char>) -> Option<(IpAddress, Seq<char>)> {
    let cols = spec_words(line);
    if cols.len() < 4 {
        None
    } else {
        match spec_parse_ip_addr(cols[0]) {
            None => None,
            Some(ip) => if cols[3] == "00:00:00:00:00:00"@ {
                None
            } else {
                Some((ip, spec_normalize_mac(cols[3])))
            },
        }
    }
}

/// The table `/proc/net/arp` describes: its lines after the header, each
/// overriding what earlier lines said of the same IP address.
pub open spec fn spec_proc_net_arp(contents: Seq<char>) -> Map<IpAddress, Seq<char>> {
    table_of(after_header(spec_lines(contents)).map_values(|l: Seq<char>| spec_proc_arp_entry(l)))
}

/// The lines after the first one (none when there are none).
pub open spec fn after_header(lines: Seq<Seq<char>>) -> Seq<Seq<char>> {
    if lines.len() == 0 {
        lines
    } else {
        lines.skip(1)
    }
}

/// The entry of one line of `/proc/net/arp`.
fn proc_arp_entry(line: &Vec<char>) -> (r: Option<(IpAddress, String)>)
    ensures
        match r {
            Some((ip, mac)) => spec_proc_arp_entry(line@) == Some((ip, mac@)),
            None => spec_proc_arp_entry(line@) is None,
        },
{
    let cols = split_words(line);
    if cols.len() < 4 {
        return None;
    }
    let ip_text = string_of(&cols[0]);
    let ip = match parse_ip_addr(ip_text.as_str()) {
        Some(ip) => ip,
        None => {
            return None;
        },
    };
    let mac = string_of(&cols[3]);
    if str_eq(mac.as_str(), "00:00:00:00:00:00") {
        return None;
    }
    Some((ip, normalize_mac(mac.as_str())))
}

/// Parses the contents of Linux's `/proc/net/arp`.
pub fn parse_proc_net_arp(contents: &str) -> (r: ArpTable)
    ensures
        r.view() == spec_proc_net_arp(contents@),
{
    let cs = chars_of(contents);
    let lines = split_lines(&cs);
    let ghost entries = after_header(spec_lines(contents@)).map_values(
        |l: Seq<char>| spec_proc_arp_entry(l),
    );
    let mut table = ArpTable::new();
    if lines.len() == 0 {
        assert(entries =~= Seq::<Option<(IpAddress, Seq<char>)>>::empty());
        return table;
    }
    let mut i: usize = 1;
    while i < lines.len()
        invariant
            1 <= i <= lines@.len(),
            views_of(lines@) == spec_lines(contents@),
            entries.len() == lines@.len() - 1,
            forall|j: int|
                1 <= j < lines@.len() ==> entries[j - 1] == spec_proc_arp_entry(
                    #[trigger] lines@[j]@,
                ),
            table.view() == table_of(entries.take(i - 1)),
        decreases lines.len() - i,
    {
        assert(entries.take(i as int).drop_last() =~= entries.take(i - 1));
        match proc_arp_entry(&lines[i]) {
            Some((ip, mac)) => {
                table.insert(ip, mac);
            },
            None => {},
        }
        i = i + 1;
    }
    assert(entries.take(lines.len() - 1) =~= entries);
    table
}

/// `arp -a` output lines the parser accepts: when a line holds both a `(`
/// and a `)`, the first `(` comes before the first `)`.
pub open spec fn arp_line_ok(line: Seq<char>) -> bool {
    match (spec_find(line, seq!['(']), spec_find(line, seq![')'])) {
        (Some(open), Some(close)) => open < close,
        _ => true,
    }
}

/// Whether a line of `arp -a` output is one the parser accepts.
pub fn arp_line_well_formed(line: &str) -> (r: bool)
    ensures
        r == arp_line_ok(line@),
{
    let cs = chars_of(line);
    arp_chars_well_formed(&cs)
}

fn arp_chars_well_formed(cs: &Vec<char>) -> (r: bool)
    ensures
        r == arp_line_ok(cs@),
{
    let open_pat = vec!['('];
    let close_pat = vec![')'];
    assert(open_pat@ =~= seq!['(']);
    assert(close_pat@ =~= seq![')']);
    match (find(cs, &open_pat), find(cs, &close_pat)) {
        (Some(open), Some(close)) => open < close,
        _ => true,
    }
}

/// Whether every line of `arp -a` output is one the parser accepts.
pub fn arp_output_well_formed(text: &str) -> (r: bool)
    ensures
        r == forall|i: int|
            0 <= i < spec_lines(text@).len() ==> arp_line_ok(#[trigger] spec_lines(text@)[i]),
{
    let cs = chars_of(text);
    let lines = split_lines(&cs);
    let mut i: usize = 0;
    while i < lines.len()
        invariant
            i <= lines@.len(),
            views_of(lines@) == spec_lines(text@),
            forall|j: int| 0 <= j < i ==> arp_line_ok(#[trigger] spec_lines(text@)[j]),
        decreases lines.len() - i,
    {
        assert(lines@[i as int]@ == views_of(lines@)[i as int]);
        if !arp_chars_well_formed(&lines[i]) {
            return false;
        }
        i = i + 1;
    }
    true
}

/// The first word after the first ` at ` in `s`, if there is one.
pub open spec fn word_after_at(s: Seq<char>) -> Option<Seq<char>> {
    match spec_find(s, seq![' ', 'a', 't', ' ']) {
        None => None,
        Some(k) => {
            let words = spec_words(s.skip(k + 4));
            if words.len() == 0 {
                None
            } else {
                Some(words[0])
            }
        },
    }
}

/// What one line of `arp -a` yields.
///
/// macOS writes `hostname (192.168.1.1) at aa:bb:cc:dd:ee:ff on en0 ...`:
/// the address between the parentheses, and the MAC address, which is the
/// first word after the first ` at ` that follows the closing parenthesis
/// (so a hostname such as `thermostat` is never taken for it).
/// Windows writes `192.168.1.1   aa-bb-cc-dd-ee-ff   dynamic`: the first
/// two words, when the second holds a `-` or a `:`.
pub open spec fn spec_parse_arp_line(line: Seq<char>) -> Option<(IpAddress, Seq<char>)> {
    match (spec_find(line, seq!['(']), spec_find(line, seq![')'])) {
        (Some(open), Some(close)) => match spec_parse_ip_addr(line.subrange(open + 1, close)) {
            None => None,
            Some(ip) => match word_after_at(line.skip(close + 1)) {
                None => None,
                Some(mac) => Some((ip, spec_normalize_mac(mac))),
            },
        },
        _ => {
            let cols = spec_words(line);
            if cols.len() >= 2 {
                match spec_parse_ip_addr(cols[0]) {
                    Some(ip) => if cols[1].contains('-') || cols[1].contains(':') {
                        Some((ip, spec_normalize_mac(cols[1])))
                    } else {
                        None
                    },
                    None => None,
                }
            } else {
                None
            }
        },
    }
}

/// One line of `arp -a`, as chars.
fn parse_arp_line_chars(line: &Vec<char>) -> (r: Option<(IpAddress, String)>)
    requires
        arp_line_ok(line@),
    ensures
        match r {
            Some((ip, mac)) => spec_parse_arp_line(line@) == Some((ip, mac@)),
            None => spec_parse_arp_line(line@) is None,
        },
{
    let open_pat = vec!['('];
    let close_pat = vec![')'];
    assert(open_pat@ =~= seq!['(']);
    assert(close_pat@ =~= seq![')']);
    let open = find(line, &open_pat);
    let close = find(line, &close_pat);
    if let (Some(open), Some(close)) = (open, close) {
        proof {
            lemma_find(line@, seq!['(']);
            lemma_find(line@, seq![')']);
        }
        let ip_chars = slice_chars_between(line, open, close);
        let ip_text = string_of(&ip_chars);
        let ip = match parse_ip_addr(ip_text.as_str()) {
            Some(ip) => ip,
            None => {
                return None;
            },
        };
        let n = line.len();
        assert(matches_at(line@, seq![')'], close as int));
        assert(close < n);
        let tail = crate::text::slice_chars(line, close + 1, n);
        assert(tail@ =~= line@.skip(close + 1));
        let mac = match word_after_at_exec(&tail) {
            Some(mac) => mac,
            None => {
                return None;
            },
        };
        let mac = string_of(&mac);
        return Some((ip, normalize_mac(mac.as_str())));
    }
    let cols = split_words(line);
    if cols.len() >= 2 {
        let ip_text = string_of(&cols[0]);
        if let Some(ip) = parse_ip_addr(ip_text.as_str()) {
            if contains_char(&cols[1], '-') || contains_char(&cols[1], ':') {
                let mac = string_of(&cols[1]);
                return Some((ip, normalize_mac(mac.as_str())));
            }
        }
    }
    None
}

/// The first word after the first ` at ` in `s`.
fn word_after_at_exec(s: &Vec<char>) -> (r: Option<Vec<char>>)
    ensures
        match r {
            Some(w) => word_after_at(s@) == Some(w@),
            None => word_after_at(s@) is None,
        },
{
    let pat = vec![' ', 'a', 't', ' '];
    assert(pat@ =~= seq![' ', 'a', 't', ' ']);
    let k = match find(s, &pat) {
        Some(k) => k,
        None => {
            return None;
        },
    };
    proof {
        lemma_find(s@, pat@);
    }
    let n = s.len();
    assert(matches_at(s@, pat@, k as int));
    assert(k + 4 <= n);
    let rest = crate::text::slice_chars(s, k + 4, n);
    assert(rest@ =~= s@.skip(k + 4));
    let mut words = split_words(&rest);
    if words.len() == 0 {
        return None;
    }
    let w = words.swap_remove(0);
    Some(w)
}

/// The chars strictly between index `open` and index `close`.
fn slice_chars_between(line: &Vec<char>, open: usize, close: usize) -> (r: Vec<char>)
    requires
        open < close <= line@.len(),
    ensures
        r@ == line@.subrange(open + 1, close as int),
{
    crate::text::slice_chars(line, open + 1, close)
}

/// Parses one line of `arp -a` output (macOS or Windows format) into the IP
/// address and the normalised MAC address it reports.
pub fn parse_arp_line(line: &str) -> (r: Option<(IpAddress, String)>)
    requires
        arp_line_ok(line@),
    ensures
        match r {
            Some((ip, mac)) => spec_parse_arp_line(line@) == Some((ip, mac@)),
            None => spec_parse_arp_line(line@) is None,
        },
{
    let cs = chars_of(line);
    parse_arp_line_chars(&cs)
}

/// The table `arp -a` output describes: every line that parses, each
/// overriding what earlier lines said of the same IP address.
pub open spec fn spec_arp_command_output(text: Seq<char>) -> Map<IpAddress, Seq<char>> {
    table_of(spec_lines(text).map_values(|l: Seq<char>| spec_parse_arp_line(l)))
}

/// Parses the output of `arp -a` (macOS or Windows).
pub fn parse_arp_command_output(text: &str) -> (r: ArpTable)
    requires
        forall|i: int|
            0 <= i < spec_lines(text@).len() ==> arp_line_ok(#[trigger] spec_lines(text@)[i]),
    ensures
        r.view() == spec_arp_command_output(text@),
{
    let cs = chars_of(text);
    let lines = split_lines(&cs);
    let ghost entries = spec_lines(text@).map_values(|l: Seq<char>| spec_parse_arp_line(l));
    assert forall|j: int| 0 <= j < lines@.len() implies arp_line_ok(#[trigger] lines@[j]@) by {
        assert(lines@[j]@ == views_of(lines@)[j]);
    }
    let mut table = ArpTable::new();
    let mut i: usize = 0;
    while i < lines.len()
        invariant
            0 <= i <= lines@.len(),
            views_of(lines@) == spec_lines(text@),
            entries.len() == lines@.len(),
            forall|j: int|
                0 <= j < entries.len() ==> entries[j] == spec_parse_arp_line(#[trigger] lines@[j]@),
            forall|j: int| 0 <= j < lines@.len() ==> arp_line_ok(#[trigger] lines@[j]@),
            table.view() == table_of(entries.take(i as int)),
        decreases lines.len() - i,
    {
        assert(entries.take(i + 1).drop_last() =~= entries.take(i as int));
        match parse_arp_line_chars(&lines[i]) {
            Some((ip, mac)) => {
                table.insert(ip, mac);
            },
            None => {},
        }
        i = i + 1;
    }
    assert(entries.take(lines.len() as int) =~= entries);
    table
}

/// Whether `e` is an entry for `ip`.
pub open spec fn entry_for(e: Option<(IpAddress, Seq<char>)>, ip: IpAddress) -> bool {
    e is Some && e->Some_0.0 == ip
}

/// From the entries that lines give, the table maps `ip` to what the last
/// line reporting it said, and holds nothing no line reported.
proof fn lemma_table_of_lines(lines: Seq<Seq<char>>, parse: spec_fn(Seq<char>) -> Option<(IpAddress, Seq<char>)>, j: int, ip: IpAddress, mac: Seq<char>)
    requires
        0 <= j < lines.len(),
        parse(lines[j]) == Some((ip, mac)),
        forall|k: int| j < k < lines.len() ==> !entry_for(#[trigger] parse(lines[k]), ip),
    ensures
        table_of(lines.map_values(parse)).contains_key(ip),
        table_of(lines.map_values(parse))[ip] == mac,
{
    let entries = lines.map_values(parse);
    lemma_table_last_report_wins(entries, ip);
    assert(reports(entries[j], ip));
    let t = table_of(entries);
    let j2 = choose|j2: int|
        0 <= j2 < entries.len() && #[trigger] entries[j2] == Some((ip, t[ip]))
            && forall|k: int| j2 < k < entries.len() ==> !reports(#[trigger] entries[k], ip);
    if j2 < j {
        assert(reports(entries[j], ip));
    } else if j2 > j {
        assert(entry_for(parse(lines[j2]), ip));
    }
}

/// Every line of `arp -a` output counts, the first included: a line that
/// parses to `(ip, mac)`, with no later line reporting `ip`, puts exactly
/// that pair in the table; and every address in the table comes, with its
/// MAC address, from some line that parses.
#[verifier::spinoff_prover]
pub proof fn lemma_arp_command_output_reads_every_line(
    text: Seq<char>,
    j: int,
    ip: IpAddress,
    mac: Seq<char>,
)
    ensures
        0 <= j < spec_lines(text).len() && spec_parse_arp_line(spec_lines(text)[j]) == Some((ip, mac))
            && (forall|k: int|
            j < k < spec_lines(text).len() ==> !entry_for(
                #[trigger] spec_parse_arp_line(spec_lines(text)[k]),
                ip,
            )) ==> spec_arp_command_output(text).contains_key(ip)
            && spec_arp_command_output(text)[ip] == mac,
        spec_arp_command_output(text).contains_key(ip) ==> exists|i: int|
            0 <= i < spec_lines(text).len() && #[trigger] spec_parse_arp_line(spec_lines(text)[i])
                == Some((ip, spec_arp_command_output(text)[ip])),
{
    let lines = spec_lines(text);
    let parse = |l: Seq<char>| spec_parse_arp_line(l);
    assert(spec_arp_command_output(text) == table_of(lines.map_values(parse)));
    if 0 <= j < lines.len() && spec_parse_arp_line(lines[j]) == Some((ip, mac)) && (forall|k: int|
        j < k < lines.len() ==> !entry_for(#[trigger] spec_parse_arp_line(lines[k]), ip)) {
        assert forall|k: int| j < k < lines.len() implies !entry_for(#[trigger] parse(lines[k]), ip) by {
            assert(!entry_for(spec_parse_arp_line(lines[k]), ip));
        }
        lemma_table_of_lines(lines, parse, j, ip, mac);
    }
    let entries = lines.map_values(parse);
    lemma_table_last_report_wins(entries, ip);
    if spec_arp_command_output(text).contains_key(ip) {
        let i = choose|i: int|
            0 <= i < entries.len() && #[trigger] entries[i] == Some((ip, table_of(entries)[ip]))
                && forall|k: int| i < k < entries.len() ==> !reports(#[trigger] entries[k], ip);
        assert(spec_parse_arp_line(lines[i]) == Some((ip, spec_arp_command_output(text)[ip])));
    }
}

/// `/proc/net/arp` is read from its second line on: the first line is the
/// column header and never an entry. A later line that gives `(ip, mac)`,
/// with no line after it reporting `ip`, puts exactly that pair in the
/// table; and every address in the table comes, with its MAC address, from
/// some line after the first.
#[verifier::spinoff_prover]
pub proof fn lemma_proc_net_arp_reads_every_line_after_the_header(
    contents: Seq<char>,
    j: int,
    ip: IpAddress,
    mac: Seq<char>,
)
    ensures
        1 <= j < spec_lines(contents).len() && spec_proc_arp_entry(spec_lines(contents)[j]) == Some(
            (ip, mac),
        ) && (forall|k: int|
            j < k < spec_lines(contents).len() ==> !entry_for(
                #[trigger] spec_proc_arp_entry(spec_lines(contents)[k]),
                ip,
            )) ==> spec_proc_net_arp(contents).contains_key(ip) && spec_proc_net_arp(contents)[ip]
            == mac,
        spec_proc_net_arp(contents).contains_key(ip) ==> exists|i: int|
            1 <= i < spec_lines(contents).len() && #[trigger] spec_proc_arp_entry(
                spec_lines(contents)[i],
            ) == Some((ip, spec_proc_net_arp(contents)[ip])),
{
    let all = spec_lines(contents);
    let parse = |l: Seq<char>| spec_proc_arp_entry(l);
    if all.len() == 0 {
        assert(spec_proc_net_arp(contents) =~= Map::<IpAddress, Seq<char>>::empty()) by {
            assert(after_header(all).map_values(parse) =~= Seq::<Option<(IpAddress, Seq<char>)>>::empty());
        }
        return;
    }
    let lines = all.skip(1);
    assert(spec_proc_net_arp(contents) == table_of(lines.map_values(parse)));
    if 1 <= j < all.len() && spec_proc_arp_entry(all[j]) == Some((ip, mac)) && (forall|k: int|
        j < k < all.len() ==> !entry_for(#[trigger] spec_proc_arp_entry(all[k]), ip)) {
        assert(lines[j - 1] == all[j]);
        assert forall|k: int| j - 1 < k < lines.len() implies !entry_for(#[trigger] parse(lines[k]), ip) by {
            assert(lines[k] == all[k + 1]);
            assert(!entry_for(spec_proc_arp_entry(all[k + 1]), ip));
        }
        lemma_table_of_lines(lines, parse, j - 1, ip, mac);
    }
    let entries = lines.map_values(parse);
    lemma_table_last_report_wins(entries, ip);
    if spec_proc_net_arp(contents).contains_key(ip) {
        let i = choose|i: int|
            0 <= i < entries.len() && #[trigger] entries[i] == Some((ip, table_of(entries)[ip]))
                && forall|k: int| i < k < entries.len() ==> !reports(#[trigger] entries[k], ip);
        assert(lines[i] == all[i + 1]);
        assert(spec_proc_arp_entry(all[i + 1]) == Some((ip, spec_proc_net_arp(contents)[ip])));
    }
}

/// Normalising an ASCII MAC address keeps its length and changes each char
/// on its own: a `-` becomes `:`, an upper-case letter becomes the same
/// letter in lower case (32 code points up), and every other char stays.
/// So the result holds no `-` and no upper-case letter, and normalising it
/// again changes nothing.
#[verifier::spinoff_prover]
pub proof fn lemma_normalized_mac_chars(mac: Seq<char>)
    requires
        all_ascii(mac),
    ensures
        ascii_normalize_mac(mac).len() == mac.len(),
        forall|i: int|
            0 <= i < mac.len() ==> {
                let c = mac[i];
                let d = #[trigger] ascii_normalize_mac(mac)[i];
                &&& c == '-' ==> d == ':'
                &&& 'A' <= c <= 'Z' ==> d as u32 == c as u32 + 32 && 'a' <= d <= 'z'
                &&& c != '-' && !('A' <= c <= 'Z') ==> d == c
                &&& d != '-' && !('A' <= d <= 'Z')
            },
        all_ascii(ascii_normalize_mac(mac)),
        ascii_normalize_mac(ascii_normalize_mac(mac)) == ascii_normalize_mac(mac),
{
    let n = ascii_normalize_mac(mac);
    assert forall|i: int| 0 <= i < mac.len() implies {
        let c = mac[i];
        let d = #[trigger] n[i];
        &&& c == '-' ==> d == ':'
        &&& 'A' <= c <= 'Z' ==> d as u32 == c as u32 + 32 && 'a' <= d <= 'z'
        &&& c != '-' && !('A' <= c <= 'Z') ==> d == c
        &&& d != '-' && !('A' <= d <= 'Z')
    } by {
        let c = mac[i];
        lemma_ascii_case(c);
        if 'A' <= c <= 'Z' {
            let l = ((c as u32) + 32) as char;
            assert((l as u32) == (c as u32) + 32);
        }
    }
    assert(all_ascii(n)) by {
        assert forall|i: int| 0 <= i < n.len() implies (n[i] as u32) < 128 by {
            lemma_ascii_case(dash_to_colon(mac[i]));
        }
    }
    assert(ascii_normalize_mac(n) =~= n);
}

/// The first occurrence of a one-char pattern is where it is found when
/// no earlier char is it.
proof fn lemma_find_char(s: Seq<char>, c: char, i: int)
    requires
        0 <= i < s.len(),
        s[i] == c,
        forall|j: int| 0 <= j < i ==> s[j] != c,
    ensures
        spec_find(s, seq![c]) == Some(i),
{
    assert(s.subrange(i, i + 1) =~= seq![c]);
    assert forall|j: int| 0 <= j < i implies !matches_at(s, seq![c], j) by {
        if matches_at(s, seq![c], j) {
            assert(s.subrange(j, j + 1)[0] == s[j]);
        }
    }
    assert(is_first_match(s, seq![c], i));
    lemma_find(s, seq![c]);
    lemma_first_match_unique(s, seq![c], spec_find(s, seq![c])->Some_0, i);
}

/// A macOS `arp -a` line, `host (addr) at mac ...`, with no parenthesis in
/// the host name or the address: it yields the address parsed as an IP
/// address, with `mac` normalised, when the address parses, and nothing
/// when it does not. Whatever the host name ends with, the MAC address is
/// the word after the ` at ` that follows the address.
#[verifier::spinoff_prover]
#[verifier::rlimit(40)]
pub proof fn lemma_macos_arp_line(host: Seq<char>, addr: Seq<char>, mac: Seq<char>, rest: Seq<char>)
    requires
        !host.contains('('),
        !host.contains(')'),
        !addr.contains('('),
        !addr.contains(')'),
        mac.len() > 0,
        forall|i: int| 0 <= i < mac.len() ==> !spec_is_whitespace(#[trigger] mac[i]),
        rest.len() == 0 || spec_is_whitespace(rest[0]),
    ensures
        spec_parse_arp_line(host + seq!['('] + addr + seq![')', ' ', 'a', 't', ' '] + mac + rest)
            == match spec_parse_ip_addr(addr) {
            Some(ip) => Some((ip, spec_normalize_mac(mac))),
            None => None,
        },
{
    let line = host + seq!['('] + addr + seq![')', ' ', 'a', 't', ' '] + mac + rest;
    let o = host.len() as int;
    let c = o + 1 + addr.len();
    assert(line[o] == '(');
    assert forall|j: int| 0 <= j < o implies line[j] != '(' by {
        assert(line[j] == host[j]);
    }
    lemma_find_char(line, '(', o);
    assert(line[c] == ')');
    assert forall|j: int| 0 <= j < c implies line[j] != ')' by {
        if j < o {
            assert(line[j] == host[j]);
        } else if j > o {
            assert(line[j] == addr[j - o - 1]);
        }
    }
    lemma_find_char(line, ')', c);
    assert(line.subrange(o + 1, c) =~= addr);
    let tail = line.skip(c + 1);
    let at = seq![' ', 'a', 't', ' '];
    assert(tail =~= at + (mac + rest));
    assert(tail.subrange(0, 4) =~= at);
    assert(is_first_match(tail, at, 0));
    lemma_find(tail, at);
    lemma_first_match_unique(tail, at, spec_find(tail, at)->Some_0, 0);
    assert(tail.skip(4) =~= mac + rest);
    lemma_first_word(mac, rest);
}

/// A line without both parentheses is read as Windows writes it: its first
/// word is the IP address and its second the MAC address, which must hold a
/// `-` or a `:`; the MAC address comes out normalised.
pub proof fn lemma_windows_arp_line(line: Seq<char>)
    requires
        !line.contains('(') || !line.contains(')'),
    ensures
        ({
            let words = spec_words(line);
            spec_parse_arp_line(line) == if words.len() >= 2 && spec_parse_ip_addr(words[0]) is Some && (
            words[1].contains('-') || words[1].contains(':')) {
                Some((spec_parse_ip_addr(words[0])->Some_0, spec_normalize_mac(words[1])))
            } else {
                None
            }
        }),
{
    lemma_find(line, seq!['(']);
    lemma_find(line, seq![')']);
    if spec_find(line, seq!['(']) is Some {
        let i = spec_find(line, seq!['('])->Some_0;
        assert(line.subrange(i, i + 1)[0] == line[i]);
    }
    if spec_find(line, seq![')']) is Some {
        let i = spec_find(line, seq![')'])->Some_0;
        assert(line.subrange(i, i + 1)[0] == line[i]);
    }
}

/// A line of `/proc/net/arp` is read by its whitespace-separated columns:
/// it gives the first column parsed as an IP address with the fourth,
/// normalised, as its MAC address, unless it has fewer than four columns,
/// the first is no IP address, or the fourth is the all-zero address of an
/// incomplete entry.
pub proof fn lemma_proc_arp_columns(line: Seq<char>)
    ensures
        ({
            let cols = spec_words(line);
            spec_proc_arp_entry(line) == if cols.len() >= 4 && spec_parse_ip_addr(cols[0]) is Some
                && cols[3] != seq!['0', '0', ':', '0', '0', ':', '0', '0', ':', '0', '0', ':', '0', '0', ':', '0', '0'] {
                Some((spec_parse_ip_addr(cols[0])->Some_0, spec_normalize_mac(cols[3])))
            } else {
                None
            }
        }),
{
    reveal_strlit("00:00:00:00:00:00");
    assert("00:00:00:00:00:00"@ =~= seq!['0', '0', ':', '0', '0', ':', '0', '0', ':', '0', '0', ':', '0', '0', ':', '0', '0']);
}

/// The listed OUIs, told apart by their first, second, fourth and fifth
/// chars.
proof fn lemma_oui_literals()
    ensures
        "A4:77:33"@[0] == 'A' && "A4:77:33"@[1] == '4' && "A4:77:33"@[3] == '7' && "A4:77:33"@[4] == '7',
        "AC:BC:32"@[0] == 'A' && "AC:BC:32"@[1] == 'C' && "AC:BC:32"@[3] == 'B' && "AC:BC:32"@[4] == 'C',
        "F0:18:98"@[0] == 'F' && "F0:18:98"@[1] == '0' && "F0:18:98"@[3] == '1' && "F0:18:98"@[4] == '8',
        "00:1B:63"@[0] == '0' && "00:1B:63"@[1] == '0' && "00:1B:63"@[3] == '1' && "00:1B:63"@[4] == 'B',
        "00:1E:C2"@[0] == '0' && "00:1E:C2"@[1] == '0' && "00:1E:C2"@[3] == '1' && "00:1E:C2"@[4] == 'E',
        "00:1A:11"@[0] == '0' && "00:1A:11"@[1] == '0' && "00:1A:11"@[3] == '1' && "00:1A:11"@[4] == 'A',
        "3C:5A:B4"@[0] == '3' && "3C:5A:B4"@[1] == 'C' && "3C:5A:B4"@[3] == '5' && "3C:5A:B4"@[4] == 'A',
        "F4:F5:D8"@[0] == 'F' && "F4:F5:D8"@[1] == '4' && "F4:F5:D8"@[3] == 'F' && "F4:F5:D8"@[4] == '5',
        "B8:27:EB"@[0] == 'B' && "B8:27:EB"@[1] == '8' && "B8:27:EB"@[3] == '2' && "B8:27:EB"@[4] == '7',
        "DC:A6:32"@[0] == 'D' && "DC:A6:32"@[1] == 'C' && "DC:A6:32"@[3] == 'A' && "DC:A6:32"@[4] == '6',
        "E4:5F:01"@[0] == 'E' && "E4:5F:01"@[1] == '4' && "E4:5F:01"@[3] == '5' && "E4:5F:01"@[4] == 'F',
        "00:50:56"@[0] == '0' && "00:50:56"@[1] == '0' && "00:50:56"@[3] == '5' && "00:50:56"@[4] == '0',
        "00:0C:29"@[0] == '0' && "00:0C:29"@[1] == '0' && "00:0C:29"@[3] == '0' && "00:0C:29"@[4] == 'C',
        "08:00:27"@[0] == '0' && "08:00:27"@[1] == '8' && "08:00:27"@[3] == '0' && "08:00:27"@[4] == '0',
        "FC:EC:DA"@[0] == 'F' && "FC:EC:DA"@[1] == 'C' && "FC:EC:DA"@[3] == 'E' && "FC:EC:DA"@[4] == 'C',
        "74:C2:46"@[0] == '7' && "74:C2:46"@[1] == '4' && "74:C2:46"@[3] == 'C' && "74:C2:46"@[4] == '2',
        "00:17:88"@[0] == '0' && "00:17:88"@[1] == '0' && "00:17:88"@[3] == '1' && "00:17:88"@[4] == '7',
        "B0:BE:76"@[0] == 'B' && "B0:BE:76"@[1] == '0' && "B0:BE:76"@[3] == 'B' && "B0:BE:76"@[4] == 'E',
        "5C:0A:5B"@[0] == '5' && "5C:0A:5B"@[1] == 'C' && "5C:0A:5B"@[3] == '0' && "5C:0A:5B"@[4] == 'A',
        "18:D6:C7"@[0] == '1' && "18:D6:C7"@[1] == '8' && "18:D6:C7"@[3] == 'D' && "18:D6:C7"@[4] == '6',
        "F8:1A:67"@[0] == 'F' && "F8:1A:67"@[1] == '8' && "F8:1A:67"@[3] == '1' && "F8:1A:67"@[4] == 'A',
        "50:C7:BF"@[0] == '5' && "50:C7:BF"@[1] == '0' && "50:C7:BF"@[3] == 'C' && "50:C7:BF"@[4] == '7',
        "94:83:C4"@[0] == '9' && "94:83:C4"@[1] == '4' && "94:83:C4"@[3] == '8' && "94:83:C4"@[4] == '3',
{
    reveal_strlit("A4:77:33");
    reveal_strlit("AC:BC:32");
    reveal_strlit("F0:18:98");
    reveal_strlit("00:1B:63");
    reveal_strlit("00:1E:C2");
    reveal_strlit("00:1A:11");
    reveal_strlit("3C:5A:B4");
    reveal_strlit("F4:F5:D8");
    reveal_strlit("B8:27:EB");
    reveal_strlit("DC:A6:32");
    reveal_strlit("E4:5F:01");
    reveal_strlit("00:50:56");
    reveal_strlit("00:0C:29");
    reveal_strlit("08:00:27");
    reveal_strlit("FC:EC:DA");
    reveal_strlit("74:C2:46");
    reveal_strlit("00:17:88");
    reveal_strlit("B0:BE:76");
    reveal_strlit("5C:0A:5B");
    reveal_strlit("18:D6:C7");
    reveal_strlit("F8:1A:67");
    reveal_strlit("50:C7:BF");
    reveal_strlit("94:83:C4");
}

/// The built-in vendor table: a MAC address whose OUI (its first 8 bytes)
/// upper-cases to one of these gets that vendor; one whose OUI is none of
/// them, or which has no OUI, gets none.
#[verifier::spinoff_prover]
pub proof fn lemma_vendor_table(mac: Seq<char>)
    ensures
        spec_oui_prefix(mac) is None ==> spec_lookup_vendor(mac) is None,
        spec_oui_prefix(mac) is Some ==> {
            let u = spec_to_uppercase(spec_oui_prefix(mac)->Some_0);
            &&& u == "A4:77:33"@ ==> spec_lookup_vendor(mac) == Some("Apple"@)
            &&& u == "AC:BC:32"@ ==> spec_lookup_vendor(mac) == Some("Apple"@)
            &&& u == "F0:18:98"@ ==> spec_lookup_vendor(mac) == Some("Apple"@)
            &&& u == "00:1B:63"@ ==> spec_lookup_vendor(mac) == Some("Apple"@)
            &&& u == "00:1E:C2"@ ==> spec_lookup_vendor(mac) == Some("Apple"@)
            &&& u == "00:1A:11"@ ==> spec_lookup_vendor(mac) == Some("Google"@)
            &&& u == "3C:5A:B4"@ ==> spec_lookup_vendor(mac) == Some("Google"@)
            &&& u == "F4:F5:D8"@ ==> spec_lookup_vendor(mac) == Some("Google"@)
            &&& u == "B8:27:EB"@ ==> spec_lookup_vendor(mac) == Some("Raspberry Pi Foundation"@)
            &&& u == "DC:A6:32"@ ==> spec_lookup_vendor(mac) == Some("Raspberry Pi Foundation"@)
            &&& u == "E4:5F:01"@ ==> spec_lookup_vendor(mac) == Some("Raspberry Pi Foundation"@)
            &&& u == "00:50:56"@ ==> spec_lookup_vendor(mac) == Some("VMware"@)
            &&& u == "00:0C:29"@ ==> spec_lookup_vendor(mac) == Some("VMware"@)
            &&& u == "08:00:27"@ ==> spec_lookup_vendor(mac) == Some("VirtualBox"@)
            &&& u == "FC:EC:DA"@ ==> spec_lookup_vendor(mac) == Some("Amazon Technologies"@)
            &&& u == "74:C2:46"@ ==> spec_lookup_vendor(mac) == Some("Amazon Technologies"@)
            &&& u == "00:17:88"@ ==> spec_lookup_vendor(mac) == Some("Philips (Hue)"@)
            &&& u == "B0:BE:76"@ ==> spec_lookup_vendor(mac) == Some("Samsung"@)
            &&& u == "5C:0A:5B"@ ==> spec_lookup_vendor(mac) == Some("Samsung"@)
            &&& u == "18:D6:C7"@ ==> spec_lookup_vendor(mac) == Some("Samsung"@)
            &&& u == "F8:1A:67"@ ==> spec_lookup_vendor(mac) == Some("TP-Link"@)
            &&& u == "50:C7:BF"@ ==> spec_lookup_vendor(mac) == Some("TP-Link"@)
            &&& u == "94:83:C4"@ ==> spec_lookup_vendor(mac) == Some("TP-Link"@)
            &&& spec_lookup_vendor(mac) is Some ==> (u == "A4:77:33"@
                || u == "AC:BC:32"@
                || u == "F0:18:98"@
                || u == "00:1B:63"@
                || u == "00:1E:C2"@
                || u == "00:1A:11"@
                || u == "3C:5A:B4"@
                || u == "F4:F5:D8"@
                || u == "B8:27:EB"@
                || u == "DC:A6:32"@
                || u == "E4:5F:01"@
                || u == "00:50:56"@
                || u == "00:0C:29"@
                || u == "08:00:27"@
                || u == "FC:EC:DA"@
                || u == "74:C2:46"@
                || u == "00:17:88"@
                || u == "B0:BE:76"@
                || u == "5C:0A:5B"@
                || u == "18:D6:C7"@
                || u == "F8:1A:67"@
                || u == "50:C7:BF"@
                || u == "94:83:C4"@)
        },
{
    lemma_oui_literals();
    reveal_strlit("Amazon Technologies");
    reveal_strlit("Apple");
    reveal_strlit("Google");
    reveal_strlit("Philips (Hue)");
    reveal_strlit("Raspberry Pi Foundation");
    reveal_strlit("Samsung");
    reveal_strlit("TP-Link");
    reveal_strlit("VMware");
    reveal_strlit("VirtualBox");
}

/// The built-in vendor table as `lookup_vendor` applies it to an ASCII MAC
/// address: one whose first 8 chars upper-case to a listed OUI gets that
/// vendor; a shorter one, or one whose OUI is not listed, gets none.
#[verifier::spinoff_prover]
pub proof fn lemma_ascii_vendor_table(mac: Seq<char>)
    ensures
        mac.len() < 8 ==> ascii_lookup_vendor(mac) is None,
        mac.len() >= 8 ==> {
            let u = mac.take(8).map_values(|c: char| ascii_upper(c));
            &&& u == "A4:77:33"@ ==> ascii_lookup_vendor(mac) == Some("Apple"@)
            &&& u == "AC:BC:32"@ ==> ascii_lookup_vendor(mac) == Some("Apple"@)
            &&& u == "F0:18:98"@ ==> ascii_lookup_vendor(mac) == Some("Apple"@)
            &&& u == "00:1B:63"@ ==> ascii_lookup_vendor(mac) == Some("Apple"@)
            &&& u == "00:1E:C2"@ ==> ascii_lookup_vendor(mac) == Some("Apple"@)
            &&& u == "00:1A:11"@ ==> ascii_lookup_vendor(mac) == Some("Google"@)
            &&& u == "3C:5A:B4"@ ==> ascii_lookup_vendor(mac) == Some("Google"@)
            &&& u == "F4:F5:D8"@ ==> ascii_lookup_vendor(mac) == Some("Google"@)
            &&& u == "B8:27:EB"@ ==> ascii_lookup_vendor(mac) == Some("Raspberry Pi Foundation"@)
            &&& u == "DC:A6:32"@ ==> ascii_lookup_vendor(mac) == Some("Raspberry Pi Foundation"@)
            &&& u == "E4:5F:01"@ ==> ascii_lookup_vendor(mac) == Some("Raspberry Pi Foundation"@)
            &&& u == "00:50:56"@ ==> ascii_lookup_vendor(mac) == Some("VMware"@)
            &&& u == "00:0C:29"@ ==> ascii_lookup_vendor(mac) == Some("VMware"@)
            &&& u == "08:00:27"@ ==> ascii_lookup_vendor(mac) == Some("VirtualBox"@)
            &&& u == "FC:EC:DA"@ ==> ascii_lookup_vendor(mac) == Some("Amazon Technologies"@)
            &&& u == "74:C2:46"@ ==> ascii_lookup_vendor(mac) == Some("Amazon Technologies"@)
            &&& u == "00:17:88"@ ==> ascii_lookup_vendor(mac) == Some("Philips (Hue)"@)
            &&& u == "B0:BE:76"@ ==> ascii_lookup_vendor(mac) == Some("Samsung"@)
            &&& u == "5C:0A:5B"@ ==> ascii_lookup_vendor(mac) == Some("Samsung"@)
            &&& u == "18:D6:C7"@ ==> ascii_lookup_vendor(mac) == Some("Samsung"@)
            &&& u == "F8:1A:67"@ ==> ascii_lookup_vendor(mac) == Some("TP-Link"@)
            &&& u == "50:C7:BF"@ ==> ascii_lookup_vendor(mac) == Some("TP-Link"@)
            &&& u == "94:83:C4"@ ==> ascii_lookup_vendor(mac) == Some("TP-Link"@)
            &&& ascii_lookup_vendor(mac) is Some ==> (u == "A4:77:33"@
                || u == "AC:BC:32"@
                || u == "F0:18:98"@
                || u == "00:1B:63"@
                || u == "00:1E:C2"@
                || u == "00:1A:11"@
                || u == "3C:5A:B4"@
                || u == "F4:F5:D8"@
                || u == "B8:27:EB"@
                || u == "DC:A6:32"@
                || u == "E4:5F:01"@
                || u == "00:50:56"@
                || u == "00:0C:29"@
                || u == "08:00:27"@
                || u == "FC:EC:DA"@
                || u == "74:C2:46"@
                || u == "00:17:88"@
                || u == "B0:BE:76"@
                || u == "5C:0A:5B"@
                || u == "18:D6:C7"@
                || u == "F8:1A:67"@
                || u == "50:C7:BF"@
                || u == "94:83:C4"@)
        },
{
    lemma_oui_literals();
    reveal_strlit("Amazon Technologies");
    reveal_strlit("Apple");
    reveal_strlit("Google");
    reveal_strlit("Philips (Hue)");
    reveal_strlit("Raspberry Pi Foundation");
    reveal_strlit("Samsung");
    reveal_strlit("TP-Link");
    reveal_strlit("VMware");
    reveal_strlit("VirtualBox");
}

} // verus!
