//! Wi-Fi station management: which networks there are, and how to connect to one.

use vstd::prelude::*;
use vstd::utf8::encode_utf8;

use crate::config::{method_of, AuthMethod, WifiAuth};
use crate::text::same_text;

verus! {

/// An access point that a scan found.
pub struct AccessPoint {
    pub ssid: String,
    pub signal_strength: i8,
}

/// An access point, as a mathematical value.
#[verifier::ext_equal]
pub ghost struct Ap {
    pub ssid: Seq<char>,
    pub strength: i8,
}

impl View for AccessPoint {
    type V = Ap;

    open spec fn view(&self) -> Ap {
        Ap { ssid: self.ssid@, strength: self.signal_strength }
    }
}

/// Access points, as mathematical values.
pub open spec fn all_of(aps: Seq<AccessPoint>) -> Seq<Ap> {
    aps.map_values(|ap: AccessPoint| ap@)
}

/// How many access points at the front of a list, up to `n`, are no weaker than `strength`.
pub open spec fn rank_of(ranked: Seq<Ap>, strength: i8, n: nat) -> nat
    decreases n,
{
    if n == 0 {
        0
    } else if ranked[n - 1].strength >= strength {
        n
    } else {
        rank_of(ranked, strength, (n - 1) as nat)
    }
}

/// Access points by descending strength; those of equal strength in the order they were found.
pub open spec fn ranked(aps: Seq<Ap>) -> Seq<Ap>
    decreases aps.len(),
{
    if aps.len() == 0 {
        Seq::empty()
    } else {
        let before = ranked(aps.drop_last());
        before.insert(rank_of(before, aps.last().strength, before.len()) as int, aps.last())
    }
}

/// The names of access points in order, each once, none of them empty.
pub open spec fn names(aps: Seq<Ap>) -> Seq<Seq<char>>
    decreases aps.len(),
{
    if aps.len() == 0 {
        Seq::empty()
    } else {
        let before = names(aps.drop_last());
        let name = aps.last().ssid;
        if name.len() == 0 || before.contains(name) {
            before
        } else {
            before.push(name)
        }
    }
}

/// Texts, as mathematical values.
pub open spec fn texts(v: Seq<String>) -> Seq<Seq<char>> {
    v.map_values(|s: String| s@)
}

fn is_listed(list: &Vec<String>, name: &String) -> (yes: bool)
    ensures
        yes == texts(list@).contains(name@),
{
    let mut i: usize = 0;
    while i < list.len()
        invariant
            i <= list@.len(),
            forall|j: int| 0 <= j < i ==> texts(list@)[j] != name@,
        decreases list@.len() - i,
    {
        if same_text(list[i].as_str(), name.as_str()) {
            assert(texts(list@)[i as int] == name@);
            return true;
        }
        i = i + 1;
    }
    false
}

/// Scan results as de-duplicated SSIDs sorted by descending signal strength.
pub fn scan_ssids(aps: &Vec<AccessPoint>) -> (ssids: Vec<String>)
    ensures
        texts(ssids@) == names(ranked(all_of(aps@))),
{
    let ghost found = all_of(aps@);
    let mut sorted: Vec<AccessPoint> = Vec::new();
    let mut i: usize = 0;
    assert(all_of(sorted@) =~= ranked(found.take(0)));
    while i < aps.len()
        invariant
            i <= aps@.len(),
            found == all_of(aps@),
            all_of(sorted@) == ranked(found.take(i as int)),
        decreases aps@.len() - i,
    {
        let strength: i8 = aps[i].signal_strength;
        let ghost before = all_of(sorted@);
        let mut at: usize = sorted.len();
        while at > 0 && sorted[at - 1].signal_strength < strength
            invariant
                at <= sorted@.len(),
                before == all_of(sorted@),
                rank_of(before, strength, before.len()) == rank_of(before, strength, at as nat),
            decreases at,
        {
            at = at - 1;
        }
        let ap = AccessPoint { ssid: aps[i].ssid.clone(), signal_strength: strength };
        let ghost sorted0 = sorted@;
        sorted.insert(at, ap);
        proof {
            assert(found.take(i + 1).drop_last() =~= found.take(i as int));
            assert(found.take(i + 1).last() == ap@);
            assert(all_of(sorted@) =~= all_of(sorted0).insert(at as int, ap@));
        }
        i = i + 1;
    }
    assert(found.take(i as int) =~= found);
    let ghost order = all_of(sorted@);
    let mut ssids: Vec<String> = Vec::new();
    let mut k: usize = 0;
    assert(texts(ssids@) =~= names(order.take(0)));
    while k < sorted.len()
        invariant
            k <= sorted@.len(),
            order == all_of(sorted@),
            texts(ssids@) == names(order.take(k as int)),
        decreases sorted@.len() - k,
    {
        let name = &sorted[k].ssid;
        proof {
            assert(order.take(k + 1).drop_last() =~= order.take(k as int));
            assert(order.take(k + 1).last() == sorted@[k as int]@);
        }
        if name.as_str().unicode_len() > 0 && !is_listed(&ssids, name) {
            let ghost ssids0 = ssids@;
            ssids.push(name.clone());
            assert(texts(ssids@) =~= texts(ssids0).push(name@));
        }
        k = k + 1;
    }
    assert(order.take(k as int) =~= order);
    ssids
}

/// A strength that some access point of this name has, and none of this name exceeds.
pub open spec fn strongest(aps: Seq<Ap>, name: Seq<char>, strength: i8) -> bool {
    &&& exists|k: int| 0 <= k < aps.len() && (#[trigger] aps[k]) == (Ap { ssid: name, strength })
    &&& forall|k: int|
        0 <= k < aps.len() && (#[trigger] aps[k]).ssid == name ==> aps[k].strength <= strength
}

/// A list by descending strength.
pub open spec fn descending(aps: Seq<Ap>) -> bool {
    forall|i: int, j: int|
        0 <= i < j < aps.len() ==> (#[trigger] aps[i]).strength >= (#[trigger] aps[j]).strength
}

proof fn lemma_rank_of(r: Seq<Ap>, strength: i8, n: nat)
    requires
        n <= r.len(),
        descending(r),
    ensures
        rank_of(r, strength, n) <= n,
        forall|i: int| 0 <= i < rank_of(r, strength, n) ==> (#[trigger] r[i]).strength >= strength,
        forall|i: int| rank_of(r, strength, n) <= i < n ==> (#[trigger] r[i]).strength < strength,
    decreases n,
{
    if n > 0 && r[n - 1].strength < strength {
        lemma_rank_of(r, strength, (n - 1) as nat);
    }
}

/// Ranking neither loses nor adds an access point, and puts the stronger before the weaker.
pub proof fn law_ranking_sorts(aps: Seq<Ap>)
    ensures
        descending(ranked(aps)),
        ranked(aps).to_multiset() == aps.to_multiset(),
        ranked(aps).len() == aps.len(),
    decreases aps.len(),
{
    broadcast use vstd::seq_lib::group_to_multiset_ensures;

    if aps.len() > 0 {
        let before = ranked(aps.drop_last());
        law_ranking_sorts(aps.drop_last());
        let at = rank_of(before, aps.last().strength, before.len()) as int;
        lemma_rank_of(before, aps.last().strength, before.len());
        let r = ranked(aps);
        assert forall|i: int, j: int| 0 <= i < j < r.len() implies (#[trigger] r[i]).strength >= (
        #[trigger] r[j]).strength by {
            let x = if i < at {
                before[i]
            } else if i == at {
                aps.last()
            } else {
                before[i - 1]
            };
            let y = if j < at {
                before[j]
            } else if j == at {
                aps.last()
            } else {
                before[j - 1]
            };
            assert(r[i] == x);
            assert(r[j] == y);
        }
        assert(aps =~= aps.drop_last().push(aps.last()));
    } else {
        assert(ranked(aps) =~= aps);
    }
}

/// Access points of equal strength stay in the order they were found.
pub proof fn law_ranking_keeps_the_order_of_equals(aps: Seq<Ap>, strength: i8)
    ensures
        ranked(aps).filter(|ap: Ap| ap.strength == strength) == aps.filter(
            |ap: Ap| ap.strength == strength,
        ),
    decreases aps.len(),
{
    let same = |ap: Ap| ap.strength == strength;
    if aps.len() > 0 {
        let front = aps.drop_last();
        let last = aps.last();
        let before = ranked(front);
        law_ranking_keeps_the_order_of_equals(front, strength);
        law_ranking_sorts(front);
        let at = rank_of(before, last.strength, before.len()) as int;
        lemma_rank_of(before, last.strength, before.len());
        let head = before.take(at);
        let tail = before.skip(at);
        assert(before =~= head + tail);
        assert(ranked(aps) =~= head + seq![last] + tail);
        assert(aps =~= front + seq![last]);
        Seq::filter_distributes_over_add(head, tail, same);
        Seq::filter_distributes_over_add(head + seq![last], tail, same);
        Seq::filter_distributes_over_add(head, seq![last], same);
        Seq::filter_distributes_over_add(front, seq![last], same);
        if last.strength == strength {
            assert forall|i: int| 0 <= i < tail.len() implies (#[trigger] tail[i]).strength
                != strength by {
                assert(tail[i] == before[at + i]);
            }
            lemma_none_of(tail, strength);
        } else {
            assert(seq![last].filter(same) =~= Seq::<Ap>::empty()) by {
                lemma_none_of(seq![last], strength);
            }
        }
    } else {
        assert(ranked(aps) =~= aps);
    }
}

proof fn lemma_none_of(aps: Seq<Ap>, strength: i8)
    requires
        forall|i: int| 0 <= i < aps.len() ==> (#[trigger] aps[i]).strength != strength,
    ensures
        aps.filter(|ap: Ap| ap.strength == strength) == Seq::<Ap>::empty(),
    decreases aps.len(),
{
    reveal(Seq::filter);
    if aps.len() > 0 {
        assert forall|i: int| 0 <= i < aps.drop_last().len() implies (
        #[trigger] aps.drop_last()[i]).strength != strength by {
            assert(aps.drop_last()[i] == aps[i]);
        }
        lemma_none_of(aps.drop_last(), strength);
        assert(aps[aps.len() - 1].strength != strength);
    }
}

/// Where the names come from: each is the first of its name.
proof fn lemma_names(aps: Seq<Ap>) -> (at: Seq<int>)
    ensures
        at.len() == names(aps).len(),
        forall|k: int|
            0 <= k < at.len() ==> 0 <= #[trigger] at[k] < aps.len() && aps[at[k]].ssid == names(
                aps,
            )[k] && names(aps)[k].len() > 0,
        forall|j: int, k: int| 0 <= j < k < at.len() ==> #[trigger] at[j] < #[trigger] at[k],
        forall|k: int, i: int|
            0 <= k < at.len() && 0 <= i < at[k] ==> (#[trigger] aps[i]).ssid != (#[trigger] names(
                aps,
            )[k]),
        forall|i: int|
            0 <= i < aps.len() && (#[trigger] aps[i]).ssid.len() > 0 ==> names(aps).contains(
                aps[i].ssid,
            ),
    decreases aps.len(),
{
    if aps.len() == 0 {
        Seq::empty()
    } else {
        let front = aps.drop_last();
        let before = names(front);
        let at0 = lemma_names(front);
        let name = aps.last().ssid;
        if name.len() == 0 || before.contains(name) {
            assert forall|i: int|
                0 <= i < aps.len() && (#[trigger] aps[i]).ssid.len() > 0 implies names(
                aps,
            ).contains(aps[i].ssid) by {
                if i < front.len() {
                    assert(front[i] == aps[i]);
                }
            }
            assert forall|k: int, i: int|
                0 <= k < at0.len() && 0 <= i < at0[k] implies (#[trigger] aps[i]).ssid != (
            #[trigger] names(aps)[k]) by {
                assert(front[i] == aps[i]);
            }
            assert forall|k: int| 0 <= k < at0.len() implies 0 <= #[trigger] at0[k] < aps.len()
                && aps[at0[k]].ssid == names(aps)[k] && names(aps)[k].len() > 0 by {
                assert(front[at0[k]] == aps[at0[k]]);
            }
            at0
        } else {
            let at = at0.push(front.len() as int);
            let all = names(aps);
            assert(all == before.push(name));
            assert forall|k: int| 0 <= k < at.len() implies 0 <= #[trigger] at[k] < aps.len()
                && aps[at[k]].ssid == all[k] && all[k].len() > 0 by {
                if k < at0.len() {
                    assert(at0[k] == at[k]);
                    assert(front[at0[k]] == aps[at0[k]]);
                }
            }
            assert forall|k: int, i: int| 0 <= k < at.len() && 0 <= i < at[k] implies (
            #[trigger] aps[i]).ssid != (#[trigger] all[k]) by {
                assert(front[i] == aps[i]);
                if k < at0.len() {
                    assert(at0[k] == at[k]);
                    assert(all[k] == before[k]);
                } else if aps[i].ssid == name {
                    assert(before.contains(front[i].ssid));
                }
            }
            assert forall|i: int|
                0 <= i < aps.len() && (#[trigger] aps[i]).ssid.len() > 0 implies all.contains(
                aps[i].ssid,
            ) by {
                if i < front.len() {
                    assert(front[i] == aps[i]);
                    let j = before.index_of(aps[i].ssid);
                    assert(before.contains(front[i].ssid));
                    assert(all[before.index_of(front[i].ssid)] == front[i].ssid);
                } else {
                    assert(all[before.len() as int] == name);
                }
            }
            at
        }
    }
}

/// The list shows every network that has a name exactly once, and none without one.
pub proof fn law_scan_lists_each_network_once(aps: Seq<Ap>, name: Seq<char>)
    ensures
        names(ranked(aps)).no_duplicates(),
        names(ranked(aps)).contains(name) <==> name.len() > 0 && exists|i: int|
            0 <= i < aps.len() && (#[trigger] aps[i]).ssid == name,
{
    let r = ranked(aps);
    let at = lemma_names(r);
    law_ranking_sorts(aps);
    broadcast use vstd::seq_lib::group_to_multiset_ensures;

    let all = names(r);
    assert forall|j: int, k: int| 0 <= j < k < all.len() implies all[j] != all[k] by {
        assert(at[j] < at[k]);
        assert(r[at[j]].ssid == all[j]);
    }
    if all.contains(name) {
        let k = all.index_of(name);
        let ap = r[at[k]];
        assert(r.contains(ap));
        assert(aps.to_multiset().contains(ap));
        assert(aps.contains(ap));
        let i = aps.index_of(ap);
        assert(aps[i].ssid == name);
    }
    if name.len() > 0 && exists|i: int| 0 <= i < aps.len() && (#[trigger] aps[i]).ssid == name {
        let i = choose|i: int| 0 <= i < aps.len() && (#[trigger] aps[i]).ssid == name;
        let ap = aps[i];
        assert(aps.contains(ap));
        assert(r.to_multiset().contains(ap));
        assert(r.contains(ap));
        let j = r.index_of(ap);
        assert(r[j].ssid == name);
    }
}

/// Networks come in the order of their strongest access points.
pub proof fn law_scan_lists_strongest_first(aps: Seq<Ap>, i: int, j: int, si: i8, sj: i8)
    requires
        0 <= i < j < names(ranked(aps)).len(),
        strongest(aps, names(ranked(aps))[i], si),
        strongest(aps, names(ranked(aps))[j], sj),
    ensures
        si >= sj,
{
    let r = ranked(aps);
    let at = lemma_names(r);
    law_ranking_sorts(aps);
    broadcast use vstd::seq_lib::group_to_multiset_ensures;

    let all = names(r);
    let ki = choose|k: int|
        0 <= k < aps.len() && (#[trigger] aps[k]) == (Ap { ssid: all[i], strength: si });
    let kj = choose|k: int|
        0 <= k < aps.len() && (#[trigger] aps[k]) == (Ap { ssid: all[j], strength: sj });
    // The strongest of the later name stands no earlier than the first of that name.
    assert(aps.contains(aps[kj]));
    assert(r.to_multiset().contains(aps[kj]));
    assert(r.contains(aps[kj]));
    let pj = r.index_of(aps[kj]);
    assert(pj >= at[j]) by {
        if pj < at[j] {
            assert(r[pj].ssid != all[j]);
        }
    }
    assert(at[i] < at[j]);
    // The first of the earlier name stands before it, so it is no weaker.
    let first = r[at[i]];
    assert(first.strength >= r[pj].strength);
    assert(r.contains(first));
    assert(aps.to_multiset().contains(first));
    assert(aps.contains(first));
    let k = aps.index_of(first);
    assert(aps[k].ssid == all[i]);
}

/// The most bytes a network name can have.
pub const SSID_MAX: usize = 32;

/// The most bytes a password can have.
pub const PASSWORD_MAX: usize = 64;

/// What the radio is told in order to connect.
pub struct ClientConfiguration {
    pub ssid: String,
    pub password: String,
    pub auth_method: AuthMethod,
}

/// Why a connection cannot be tried.
#[derive(Debug, Clone, Copy, PartialEq, Eq, Structural)]
pub enum WifiError {
    SsidTooLong,
    PasswordTooLong,
}

/// The security type in effect: none where the user chose an open or automatic network and left
/// the password empty, otherwise the chosen one.
pub open spec fn effective_method(password: Seq<char>, auth: WifiAuth) -> AuthMethod {
    if password.len() == 0 && (auth is Open || auth is Auto) {
        AuthMethod::Unsecured
    } else {
        method_of(auth)
    }
}

/// No authentication is used exactly with an open network, and with an automatic one that has no
/// password; otherwise what was chosen is used, whatever the password.
pub proof fn law_choice_is_applied(password: Seq<char>, auth: WifiAuth)
    ensures
        effective_method(password, auth) is Unsecured <==> auth is Open || (auth is Auto
            && password.len() == 0),
        effective_method(password, auth) is WpaWpa2Personal <==> auth is WpaWpa2Personal,
        effective_method(password, auth) is Wpa2Personal <==> auth is Wpa2Personal,
        effective_method(password, auth) is Wpa2Wpa3Personal <==> auth is Wpa2Wpa3Personal || (
        auth is Auto && password.len() > 0),
{
}

/// What the radio is told, or why it is told nothing.
pub open spec fn told(
    ssid: Seq<char>,
    password: Seq<char>,
    auth: WifiAuth,
    r: Result<ClientConfiguration, WifiError>,
) -> bool {
    if encode_utf8(ssid).len() > SSID_MAX {
        r matches Err(WifiError::SsidTooLong)
    } else if encode_utf8(password).len() > PASSWORD_MAX {
        r matches Err(WifiError::PasswordTooLong)
    } else {
        r matches Ok(c) && c.ssid@ == ssid && c.password@ == password && c.auth_method
            == effective_method(password, auth)
    }
}

/// The radio is told name and password as they are, if and only if they have no more than 32 and 64
/// bytes.
pub proof fn law_radio_is_told_what_fits(
    ssid: Seq<char>,
    password: Seq<char>,
    auth: WifiAuth,
    r: Result<ClientConfiguration, WifiError>,
)
    requires
        told(ssid, password, auth, r),
    ensures
        r is Ok <==> encode_utf8(ssid).len() <= 32 && encode_utf8(password).len() <= 64,
        r matches Ok(c) ==> {
            &&& c.ssid@ == ssid
            &&& c.password@ == password
            &&& c.auth_method == effective_method(password, auth)
        },
        r matches Err(WifiError::SsidTooLong) <==> encode_utf8(ssid).len() > 32,
        (r matches Err(WifiError::PasswordTooLong)) ==> encode_utf8(password).len() > 64,
{
}

/// What to tell the radio in order to connect to the given network.
///
/// The `auth` argument selects the security type chosen during provisioning. When the user picked
/// `Open` or `Auto` and left the password empty, no authentication is used; otherwise the chosen
/// method is applied verbatim.
pub fn connect(ssid: &str, password: &str, auth: WifiAuth) -> (r: Result<
    ClientConfiguration,
    WifiError,
>)
    ensures
        told(ssid@, password@, auth, r),
{
    let auth_method = if password.unicode_len() == 0 && (auth == WifiAuth::Open || auth
        == WifiAuth::Auto) {
        AuthMethod::Unsecured
    } else {
        auth.to_auth_method()
    };
    if ssid.as_bytes().len() > SSID_MAX {
        return Err(WifiError::SsidTooLong);
    }
    if password.as_bytes().len() > PASSWORD_MAX {
        return Err(WifiError::PasswordTooLong);
    }
    Ok(ClientConfiguration { ssid: ssid.to_owned(), password: password.to_owned(), auth_method })
}

} // verus!
