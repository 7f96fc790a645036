use vstd::prelude::*;

use crate::codec::json_doc_of;
use crate::codec::json_strings;
use crate::codec::lemma_json_round_trip;
use crate::codec::parse_json_strings;
use crate::codec::plain_word;
use crate::codec::views_of;
use crate::codec::write_json;
use crate::ip::Ip;
use crate::ip::ip_bytes;
use crate::ip::ip_of_bytes;
use crate::ip::lemma_ip_bytes_range;
use crate::ip::lemma_ip_round_trip;
use crate::ip::parse_ip;
use crate::peer::Peer;
use crate::peer::PeerError;
use crate::peer::PeerStatus;
use crate::peer::fresh_peer;
use crate::registry::PeerRegistry;
use crate::registry::ips_of;

verus! {

/// Failures of the durable peer list.
#[derive(Clone, Copy, PartialEq, Eq, Structural, Debug)]
pub enum PeersFileControllerError {
    /// Unable to read or write the peers file.
    Io,
    /// The document is not an array of plain strings.
    Serialization,
    /// A single address could not be parsed.
    IpAddressFormat,
    /// A prior holder of the registry lock panicked.
    RwLockPoisoned,
    /// A peer could not be built.
    Peer(PeerError),
}

/// The canonical texts of a row of addresses.
pub open spec fn ip_texts(ips: Seq<Ip>) -> Seq<Seq<u8>> {
    ips.map_values(|q: Ip| ip_bytes(q))
}

/// Fresh idle peers for a row of addresses.
pub open spec fn fresh_peers<S>(ips: Seq<Ip>) -> Seq<Peer<S>> {
    ips.map_values(|q: Ip| fresh_peer::<S>(q))
}

/// The addresses a load keeps, in first-seen order: entries that are not
/// canonical address text are skipped, and an address seen again stays where
/// it first appeared.
pub open spec fn loaded_ips(entries: Seq<Seq<u8>>) -> Seq<Ip>
    decreases entries.len(),
{
    if entries.len() == 0 {
        Seq::empty()
    } else {
        let rest = loaded_ips(entries.drop_last());
        match ip_of_bytes(entries.last()) {
            Some(q) => if rest.contains(q) {
                rest
            } else {
                rest.push(q)
            },
            None => rest,
        }
    }
}

/// How many entries a load skips.
pub open spec fn invalid_count(entries: Seq<Seq<u8>>) -> nat
    decreases entries.len(),
{
    if entries.len() == 0 {
        0
    } else {
        invalid_count(entries.drop_last()) + (if ip_of_bytes(entries.last()) is None {
            1nat
        } else {
            0nat
        })
    }
}

/// Keeper of the durable peer list: the path it lives at, and whether the
/// registry has changed since the last successful flush.
#[derive(Debug)]
pub struct PeersFileController {
    pub file_path: String,
    pub is_changed: bool,
}

impl PeersFileController {
    /// Unflushed changes are pending.
    pub open spec fn dirty(self) -> bool {
        self.is_changed
    }

    pub fn new(file: &str) -> (r: PeersFileController)
        ensures
            r.file_path@ == file@,
            !r.dirty(),
    {
        PeersFileController { file_path: file.to_owned(), is_changed: false }
    }

    /// Records that the registry changed; only a successful flush clears it.
    pub fn changed(&mut self)
        ensures
            final(self).dirty(),
            final(self).file_path == old(self).file_path,
    {
        self.is_changed = true;
    }

    /// Records a successful flush of the pending changes.
    pub fn written(&mut self)
        ensures
            !final(self).dirty(),
            final(self).file_path == old(self).file_path,
    {
        self.is_changed = false;
    }

    pub fn is_dirty(&self) -> (r: bool)
        ensures
            r == self.dirty(),
    {
        self.is_changed
    }

    pub fn path(&self) -> (r: &String)
        ensures
            r@ == self.file_path@,
    {
        &self.file_path
    }

    /// Decodes peer-file bytes into a fresh registry, skipping entries that
    /// are not address text and counting them; fails only when the document
    /// itself is not an array of plain strings.
    pub fn parse_peer<S>(data: &[u8]) -> (r: Result<
        (PeerRegistry<S>, usize),
        PeersFileControllerError,
    >)
        ensures
            match r {
                Ok((reg, skipped)) => {
                    &&& json_strings(data@) is Some
                    &&& reg.wf()
                    &&& reg@ == fresh_peers::<S>(loaded_ips(json_strings(data@).unwrap()))
                    &&& skipped as nat == invalid_count(json_strings(data@).unwrap())
                },
                Err(e) => json_strings(data@) is None && e
                    == PeersFileControllerError::Serialization,
            },
    {
        let entries = match parse_json_strings(data) {
            Some(es) => es,
            None => {
                return Err(PeersFileControllerError::Serialization);
            },
        };
        let ghost es = json_strings(data@).unwrap();
        let n = entries.len();
        let mut reg: PeerRegistry<S> = PeerRegistry::new();
        let mut skipped: usize = 0;
        let mut k: usize = 0;
        proof {
            assert(reg@ =~= fresh_peers::<S>(loaded_ips(es.take(0))));
        }
        while k < n
            invariant
                0 <= k <= n,
                n == entries@.len(),
                views_of(entries@) == es,
                reg.wf(),
                reg@ == fresh_peers::<S>(loaded_ips(es.take(k as int))),
                skipped as nat == invalid_count(es.take(k as int)),
                skipped <= k,
            decreases n - k,
        {
            let ghost prefix = es.take(k as int);
            let ghost prior = reg@;
            proof {
                assert(es.take(k as int + 1).drop_last() =~= prefix);
                assert(es.take(k as int + 1).last() == es[k as int]);
                assert(es[k as int] == entries@[k as int]@);
            }
            match parse_ip(entries[k].as_slice()) {
                Some(q) => {
                    let peer: Peer<S> = Peer {
                        ip: q,
                        status: PeerStatus::Idle,
                        socket: None,
                        last_alive: None,
                        last_failure: None,
                    };
                    proof {
                        let l = loaded_ips(prefix);
                        if reg.contains_ip(q) {
                            let t = reg.ip_index(q);
                            assert(prior[t] == fresh_peer::<S>(l[t]));
                            assert(l.contains(q));
                        }
                        if l.contains(q) {
                            let t = choose|t: int| 0 <= t < l.len() && l[t] == q;
                            assert(prior[t] == fresh_peer::<S>(l[t]));
                            assert(prior[t].ip == q);
                            assert(reg.contains_ip(q));
                        }
                    }
                    let ghost was_there = reg.contains_ip(q);
                    reg.insert_or_replace(peer);
                    proof {
                        let l = loaded_ips(prefix);
                        if was_there {
                            let t = choose|t: int| 0 <= t < l.len() && l[t] == q;
                            assert(prior[t] == fresh_peer::<S>(l[t]));
                            assert(prior[t].ip == q);
                            assert(prior.update(t, peer) =~= prior);
                            assert(reg@ =~= fresh_peers::<S>(loaded_ips(es.take(k as int + 1))));
                        } else {
                            assert(loaded_ips(es.take(k as int + 1)) == l.push(q));
                            assert(reg@ =~= fresh_peers::<S>(l.push(q)));
                        }
                    }
                },
                None => {
                    skipped = skipped + 1;
                },
            }
            k = k + 1;
        }
        proof {
            assert(es.take(n as int) =~= es);
        }
        Ok((reg, skipped))
    }

    /// Encodes a row of addresses as the peer-file document.
    pub fn peers_json(ips: &Vec<Ip>) -> (r: Vec<u8>)
        ensures
            r@ == json_doc_of(ip_texts(ips@)),
    {
        let n = ips.len();
        let mut words: Vec<Vec<u8>> = Vec::new();
        let mut k: usize = 0;
        while k < n
            invariant
                0 <= k <= n,
                n == ips@.len(),
                views_of(words@) == ip_texts(ips@.take(k as int)),
            decreases n - k,
        {
            let ghost prior = words@;
            proof {
                assert(views_of(words@).len() == words@.len());
                assert(ip_texts(ips@.take(k as int)).len() == k);
            }
            let text = ips[k].format();
            words.push(text);
            proof {
                assert(prior.len() == k);
                assert(words@.len() == prior.len() + 1);
                assert(words@ == prior.push(text));
                assert(ips@.take(k as int + 1) =~= ips@.take(k as int).push(ips@[k as int]));
                assert forall|t: int| 0 <= t < words@.len() implies views_of(words@)[t]
                    == ip_texts(ips@.take(k as int + 1))[t] by {
                    if t < k {
                        assert(views_of(prior)[t] == ip_texts(ips@.take(k as int))[t]);
                        assert(words@[t] == prior[t]);
                    } else {
                        assert(words@[t] == text);
                    }
                }
                assert(views_of(words@) =~= ip_texts(ips@.take(k as int + 1)));
            }
            k = k + 1;
        }
        proof {
            assert(ips@.take(n as int) =~= ips@);
        }
        write_json(&words)
    }

    /// What one persistence tick must write: nothing at all when the
    /// registry is clean, else the document holding the registry's current
    /// address row. Only `written`, called after the write lands, clears the
    /// flag, so a failed write is retried on the next tick.
    pub fn tick_payload<S>(&self, peers: &PeerRegistry<S>) -> (r: Option<Vec<u8>>)
        ensures
            r is Some <==> self.dirty(),
            self.dirty() ==> r.unwrap()@ == json_doc_of(ip_texts(ips_of(peers@))),
    {
        if !self.is_changed {
            return None;
        }
        let ips = peers.snapshot_ips();
        Some(Self::peers_json(&ips))
    }
}

/// Every address a load keeps came from some valid entry, and every valid
/// entry's address is kept.
pub proof fn lemma_loaded_ips_membership(entries: Seq<Seq<u8>>, q: Ip)
    ensures
        loaded_ips(entries).contains(q) <==> exists|t: int|
            0 <= t < entries.len() && ip_of_bytes(#[trigger] entries[t]) == Some(q),
    decreases entries.len(),
{
    if entries.len() > 0 {
        let prefix = entries.drop_last();
        lemma_loaded_ips_membership(prefix, q);
        assert(forall|t: int| 0 <= t < prefix.len() ==> prefix[t] == #[trigger] entries[t]);
        let rest = loaded_ips(prefix);
        if loaded_ips(entries).contains(q) {
            let t = choose|t: int| 0 <= t < loaded_ips(entries).len() && loaded_ips(entries)[t]
                == q;
            if t < rest.len() {
                assert(rest.contains(q));
            } else {
                assert(ip_of_bytes(entries.last()) == Some(q));
                assert(ip_of_bytes(entries[entries.len() - 1]) == Some(q));
            }
        }
        if exists|t: int| 0 <= t < entries.len() && ip_of_bytes(#[trigger] entries[t]) == Some(q) {
            let t = choose|t: int|
                0 <= t < entries.len() && ip_of_bytes(#[trigger] entries[t]) == Some(q);
            if t < entries.len() - 1 {
                assert(ip_of_bytes(prefix[t]) == Some(q));
                assert(rest.contains(q));
                let u = choose|u: int| 0 <= u < rest.len() && rest[u] == q;
                match ip_of_bytes(entries.last()) {
                    Some(p) => {
                        if rest.contains(p) {
                            assert(loaded_ips(entries)[u] == q);
                        } else {
                            assert(loaded_ips(entries)[u] == q);
                        }
                    },
                    None => {
                        assert(loaded_ips(entries)[u] == q);
                    },
                }
            } else {
                assert(ip_of_bytes(entries.last()) == Some(q));
                if rest.contains(q) {
                    assert(loaded_ips(entries).contains(q));
                } else {
                    assert(loaded_ips(entries).last() == q);
                }
            }
        }
    }
}

/// Loading a document with some valid and some malformed entries keeps one
/// peer per valid entry and skips exactly the malformed ones: together they
/// account for every entry, and a malformed entry never fails the load.
pub proof fn lemma_load_partial_failure(entries: Seq<Seq<u8>>)
    requires
        forall|a: int, b: int|
            0 <= a < b < entries.len() && ip_of_bytes(#[trigger] entries[a]) is Some && ip_of_bytes(
                #[trigger] entries[b],
            ) is Some ==> ip_of_bytes(entries[a]) != ip_of_bytes(entries[b]),
    ensures
        loaded_ips(entries).len() + invalid_count(entries) == entries.len(),
    decreases entries.len(),
{
    if entries.len() > 0 {
        let prefix = entries.drop_last();
        assert(forall|t: int| 0 <= t < prefix.len() ==> prefix[t] == #[trigger] entries[t]);
        lemma_load_partial_failure(prefix);
        match ip_of_bytes(entries.last()) {
            Some(q) => {
                if loaded_ips(prefix).contains(q) {
                    lemma_loaded_ips_membership(prefix, q);
                    let t = choose|t: int|
                        0 <= t < prefix.len() && ip_of_bytes(#[trigger] prefix[t]) == Some(q);
                    assert(ip_of_bytes(entries[t]) == Some(q));
                    assert(ip_of_bytes(entries[entries.len() - 1]) == Some(q));
                    assert(false);
                }
            },
            None => {
            },
        }
    }
}

/// Loading the canonical texts of a distinct row of addresses keeps exactly
/// that row.
pub proof fn lemma_loaded_ips_canonical(ips: Seq<Ip>)
    requires
        forall|a: int, b: int| 0 <= a < b < ips.len() ==> ips[a] != ips[b],
    ensures
        loaded_ips(ip_texts(ips)) == ips,
    decreases ips.len(),
{
    let texts = ip_texts(ips);
    if ips.len() == 0 {
        assert(loaded_ips(texts) =~= ips);
    } else {
        let front = ips.drop_last();
        assert(texts.drop_last() =~= ip_texts(front));
        lemma_loaded_ips_canonical(front);
        let q = ips.last();
        lemma_ip_round_trip(q);
        assert(texts.last() == ip_bytes(q));
        if front.contains(q) {
            let t = choose|t: int| 0 <= t < front.len() && front[t] == q;
            assert(ips[t] == ips[ips.len() - 1]);
            assert(false);
        }
        assert(loaded_ips(texts) =~= ips) by {
            assert(loaded_ips(texts) == loaded_ips(ip_texts(front)).push(q));
            assert(front.push(q) =~= ips);
        }
    }
}

/// Round trip at the registry level: the document a persistence tick writes
/// for a well-formed registry loads back to exactly the registry's own
/// address row.
pub proof fn lemma_registry_round_trip<S>(reg: PeerRegistry<S>)
    requires
        reg.wf(),
    ensures
        json_strings(json_doc_of(ip_texts(ips_of(reg@)))) == Some(ip_texts(ips_of(reg@))),
        loaded_ips(ip_texts(ips_of(reg@))) == ips_of(reg@),
{
    let ips = ips_of(reg@);
    assert forall|a: int, b: int| 0 <= a < b < ips.len() implies ips[a] != ips[b] by {
        assert(ips[a] == reg@[a].ip);
        assert(ips[b] == reg@[b].ip);
    }
    lemma_peer_file_round_trip(ips);
}

/// Round trip of the durable peer list: writing any distinct row of
/// addresses and loading the document back yields the same addresses.
pub proof fn lemma_peer_file_round_trip(ips: Seq<Ip>)
    requires
        forall|a: int, b: int| 0 <= a < b < ips.len() ==> ips[a] != ips[b],
    ensures
        json_strings(json_doc_of(ip_texts(ips))) == Some(ip_texts(ips)),
        loaded_ips(ip_texts(ips)) == ips,
{
    let texts = ip_texts(ips);
    assert forall|t: int| 0 <= t < texts.len() implies plain_word(#[trigger] texts[t]) by {
        assert(texts[t] == ip_bytes(ips[t]));
        lemma_ip_bytes_range(ips[t]);
    }
    lemma_json_round_trip(texts);
    lemma_loaded_ips_canonical(ips);
}

} // verus!
