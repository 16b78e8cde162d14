//! How transactions and bundles are numbered, packed and handed in.

use crate::config::Config;
use crate::double::constants::ONE;
use crate::double::Double;
use crate::monitoring::metrics::{
    after_inclusion, after_simulation, after_submission, counted, record_inclusion,
    record_sim_result, record_submission, Measures, Metrics,
};
use crate::shared::abi::{keccak256, keccak256_digest};
use crate::shared::address::{address_text, write_address, Address, Digest};
use crate::shared::json::{
    has_member, json_bytes, json_list, json_map, json_members, json_number, json_object, json_parse,
    json_set, json_string, json_text, json_value, json_values, parse_json, JsonValue,
};
use crate::shared::text::{encode_hex, hex_text, numeral, write_numeral};
use vstd::prelude::*;
use vstd::string::*;

verus! {

/// The double 2.5: the factor of the tip of an urgent transaction.
pub const URGENT_TIP: u64 = 0x4004_0000_0000_0000;

/// The gas limit of a transaction of the liquidity strategy.
pub const BUNDLE_GAS: u64 = 500_000;

/// The next nonce, and where transactions are handed in.
pub struct SubmissionPipeline {
    sequencer_rpc: String,
    builder_endpoints: Vec<String>,
    nonce: u64,
}

/// A transaction that is to be signed.
pub struct SignRequest {
    pub calldata: Vec<u8>,
    pub gas_limit: u64,
    /// The factor of the tip.
    pub tip_mult: Double,
    pub nonce: u64,
}

impl SignRequest {
    /// Whether the request is for the given transaction.
    pub open spec fn asks(self, calldata: Seq<u8>, gas_limit: u64, tip_bits: u64, nonce: int) -> bool {
        &&& self.calldata@ == calldata
        &&& self.gas_limit == gas_limit
        &&& self.tip_mult.bits == tip_bits
        &&& self.nonce == nonce
    }
}

/// The texts of several strings.
pub open spec fn texts(strings: Seq<String>) -> Seq<Seq<char>> {
    Seq::new(strings.len(), |i: int| strings[i]@)
}

/// The nonce that follows another one.
pub open spec fn next_nonce(nonce: int) -> int {
    (nonce + 1) % 0x1_0000_0000_0000_0000
}

impl SubmissionPipeline {
    /// The nonce of the next transaction.
    pub closed spec fn next(self) -> int {
        self.nonce as int
    }

    /// The endpoint of the sequencer.
    pub closed spec fn sequencer(self) -> Seq<char> {
        self.sequencer_rpc@
    }

    /// The endpoints of the builders.
    pub closed spec fn builders(self) -> Seq<Seq<char>> {
        texts(self.builder_endpoints@)
    }

    /// Whether nothing but the nonce is different.
    pub open spec fn same_endpoints(self, other: SubmissionPipeline) -> bool {
        self.sequencer() == other.sequencer() && self.builders() == other.builders()
    }

    /// A pipeline over the configured endpoints; the account's nonce is told by the chain.
    pub fn new(cfg: &Config, nonce: u64) -> (r: SubmissionPipeline)
        ensures
            r.next() == nonce,
            r.sequencer() == cfg.base_sequencer_rpc@,
            r.builders() == texts(cfg.builder_endpoints@),
    {
        SubmissionPipeline {
            sequencer_rpc: cfg.base_sequencer_rpc.clone(),
            builder_endpoints: copy_texts(&cfg.builder_endpoints),
            nonce,
        }
    }

    /// The nonce of one transaction; the next one gets the one that follows.
    fn take_nonce(&mut self) -> (r: u64)
        ensures
            r == old(self).next(),
            final(self).next() == next_nonce(old(self).next()),
            final(self).same_endpoints(*old(self)),
    {
        let nonce: u64 = self.nonce;
        self.nonce = nonce.wrapping_add(1);
        nonce
    }

    /// What is to be signed for a transaction with the given tip.
    pub fn submit_with_tip(&mut self, calldata: Vec<u8>, gas_limit: u64, tip_mult: Double) -> (r: SignRequest)
        ensures
            r.asks(calldata@, gas_limit, tip_mult.bits, old(self).next()),
            final(self).next() == next_nonce(old(self).next()),
            final(self).same_endpoints(*old(self)),
    {
        let nonce: u64 = self.take_nonce();
        SignRequest { calldata, gas_limit, tip_mult, nonce }
    }

    /// What is to be signed for a transaction.
    pub fn submit(&mut self, calldata: Vec<u8>, gas_limit: u64) -> (r: SignRequest)
        ensures
            r.asks(calldata@, gas_limit, ONE, old(self).next()),
            final(self).next() == next_nonce(old(self).next()),
            final(self).same_endpoints(*old(self)),
    {
        self.submit_with_tip(calldata, gas_limit, Double { bits: ONE })
    }

    /// What is to be signed for an urgent transaction.
    pub fn submit_priority(&mut self, calldata: Vec<u8>, gas_limit: u64) -> (r: SignRequest)
        ensures
            r.asks(calldata@, gas_limit, URGENT_TIP, old(self).next()),
            final(self).next() == next_nonce(old(self).next()),
            final(self).same_endpoints(*old(self)),
    {
        self.submit_with_tip(calldata, gas_limit, Double { bits: URGENT_TIP })
    }

    /// What is to be signed for the transaction that a bundle starts with.
    pub fn submit_jit_bundle(&mut self, jit_calldata: Vec<u8>) -> (r: SignRequest)
        ensures
            r.asks(jit_calldata@, BUNDLE_GAS, ONE, old(self).next()),
            final(self).next() == next_nonce(old(self).next()),
            final(self).same_endpoints(*old(self)),
    {
        self.submit_with_tip(jit_calldata, BUNDLE_GAS, Double { bits: ONE })
    }

    /// Takes the nonce that the chain tells, where it is ahead; tells whether it is.
    pub fn resync_nonce(&mut self, chain_nonce: u64) -> (r: bool)
        ensures
            r == (chain_nonce > old(self).next()),
            final(self).next() == if chain_nonce > old(self).next() {
                chain_nonce as int
            } else {
                old(self).next()
            },
            final(self).same_endpoints(*old(self)),
    {
        if chain_nonce > self.nonce {
            self.nonce = chain_nonce;
            true
        } else {
            false
        }
    }

    /// The endpoints that a transaction is sent to: the sequencer first, then the builders.
    pub fn broadcast_endpoints(&self) -> (r: Vec<String>)
        ensures
            texts(r@) == seq![self.sequencer()] + self.builders(),
    {
        let mut all: Vec<String> = vec![self.sequencer_rpc.clone()];
        let mut builders: Vec<String> = copy_texts(&self.builder_endpoints);
        all.append(&mut builders);
        assert(texts(all@) =~= seq![self.sequencer()] + self.builders());
        all
    }

    /// The endpoints that a bundle is sent to.
    pub fn bundle_endpoints(&self) -> (r: Vec<String>)
        ensures
            texts(r@) == self.builders(),
    {
        copy_texts(&self.builder_endpoints)
    }
}

/// Copies of several strings.
fn copy_texts(strings: &Vec<String>) -> (r: Vec<String>)
    ensures
        texts(r@) == texts(strings@),
{
    let mut r: Vec<String> = Vec::new();
    let n: usize = strings.len();
    let mut i: usize = 0;
    while i < n
        invariant
            n == strings@.len(),
            i <= n,
            r@.len() == i,
            forall|j: int| 0 <= j < i ==> #[trigger] r@[j]@ == strings@[j]@,
        decreases n - i,
    {
        r.push(strings[i].clone());
        i = i + 1;
    }
    assert(texts(r@) =~= texts(strings@));
    r
}

/// Transactions that follow each other have different nonces, and none is used again before all
/// others have been.
pub proof fn law_nonces_differ(first: int, later: int)
    requires
        0 <= first < 0x1_0000_0000_0000_0000,
        0 < later < 0x1_0000_0000_0000_0000,
    ensures
        (first + later) % 0x1_0000_0000_0000_0000 != first,
        next_nonce((first + later - 1) % 0x1_0000_0000_0000_0000) == (first + later)
            % 0x1_0000_0000_0000_0000,
{
}

/// What is measured after a transaction was to be signed and sent: it counts as submitted only
/// where it went out.
pub open spec fn after_attempt(m: Measures, went_out: bool) -> Measures {
    if went_out {
        after_submission(m)
    } else {
        m
    }
}

/// Counts a transaction that was to be signed and sent.
pub fn record_attempt(m: &mut Metrics, went_out: bool)
    ensures
        final(m)@ == after_attempt(old(m)@, went_out),
{
    if went_out {
        record_submission(m);
    }
}

/// The next nonce after some transactions.
pub open spec fn nonce_after(first: int, k: nat) -> int
    decreases k,
{
    if k == 0 {
        first
    } else {
        next_nonce(nonce_after(first, (k - 1) as nat))
    }
}

/// The nonces that some transactions are signed with.
pub open spec fn taken_nonces(first: int, k: nat) -> Seq<int> {
    Seq::new(k, |i: int| nonce_after(first, i as nat))
}

/// What is measured after some transactions, each of which went out or not.
pub open spec fn after_all_attempts(m: Measures, went_out: Seq<bool>) -> Measures
    decreases went_out.len(),
{
    if went_out.len() == 0 {
        m
    } else {
        after_attempt(after_all_attempts(m, went_out.drop_last()), went_out.last())
    }
}

/// How many transactions went out.
pub open spec fn number_out(went_out: Seq<bool>) -> nat
    decreases went_out.len(),
{
    if went_out.len() == 0 {
        0
    } else {
        number_out(went_out.drop_last()) + if went_out.last() {
            1nat
        } else {
            0nat
        }
    }
}

/// The nonce after some transactions, in one step.
proof fn lemma_nonce_after(first: int, k: nat)
    requires
        0 <= first < 0x1_0000_0000_0000_0000,
    ensures
        nonce_after(first, k) == (first + k) % 0x1_0000_0000_0000_0000,
    decreases k,
{
    if k > 0 {
        lemma_nonce_after(first, (k - 1) as nat);
    }
}

/// A count after some more and one more.
proof fn lemma_counted_after(n: int, k: nat)
    ensures
        counted((n + k) % 0x1_0000_0000_0000_0000) == (n + k + 1) % 0x1_0000_0000_0000_0000,
{
}

/// The counts after some transactions, in one step.
proof fn lemma_attempts_counted(m: Measures, went_out: Seq<bool>)
    requires
        0 <= m.submission_count < 0x1_0000_0000_0000_0000,
        0 <= m.submitted_total < 0x1_0000_0000_0000_0000,
    ensures
        after_all_attempts(m, went_out) == (Measures {
            submission_count: (m.submission_count + number_out(went_out)) % 0x1_0000_0000_0000_0000,
            submitted_total: (m.submitted_total + number_out(went_out)) % 0x1_0000_0000_0000_0000,
            ..m
        }),
    decreases went_out.len(),
{
    if went_out.len() > 0 {
        let rest = went_out.drop_last();
        lemma_attempts_counted(m, rest);
        lemma_counted_after(m.submission_count, number_out(rest));
        lemma_counted_after(m.submitted_total, number_out(rest));
    }
}

/// Several transactions are signed with nonces that follow each other, each with its own, and the
/// next nonce is the one behind them, whether or not they went out. Those that went out are
/// counted, each once; those that did not leave no trace in what is measured.
pub proof fn law_submissions(first: int, m: Measures, went_out: Seq<bool>)
    requires
        0 <= first < 0x1_0000_0000_0000_0000,
        0 <= m.submission_count < 0x1_0000_0000_0000_0000,
        0 <= m.submitted_total < 0x1_0000_0000_0000_0000,
    ensures
        nonce_after(first, went_out.len()) == (first + went_out.len()) % 0x1_0000_0000_0000_0000,
        forall|i: int|
            0 <= i < went_out.len() ==> #[trigger] taken_nonces(first, went_out.len())[i] == (first + i)
                % 0x1_0000_0000_0000_0000,
        went_out.len() <= 0x1_0000_0000_0000_0000 ==> forall|i: int, j: int|
            0 <= i < j < went_out.len() ==> #[trigger] taken_nonces(first, went_out.len())[i]
                != #[trigger] taken_nonces(first, went_out.len())[j],
        after_all_attempts(m, went_out) == (Measures {
            submission_count: (m.submission_count + number_out(went_out)) % 0x1_0000_0000_0000_0000,
            submitted_total: (m.submitted_total + number_out(went_out)) % 0x1_0000_0000_0000_0000,
            ..m
        }),
{
    let k = went_out.len();
    let taken = taken_nonces(first, k);
    lemma_nonce_after(first, k);
    lemma_attempts_counted(m, went_out);
    assert forall|i: int| 0 <= i < k implies #[trigger] taken[i] == (first + i)
        % 0x1_0000_0000_0000_0000 by {
        lemma_nonce_after(first, i as nat);
    }
    if k <= 0x1_0000_0000_0000_0000 {
        assert forall|i: int, j: int| 0 <= i < j < k implies #[trigger] taken[i] != #[trigger] taken[j] by {
            law_nonces_differ((first + i) % 0x1_0000_0000_0000_0000, j - i);
        }
    }
}

// Remote procedure calls.

/// The text of some bytes: `0x` and two hexadecimal digits for each byte.
pub open spec fn hex_string(bytes: Seq<u8>) -> Seq<char> {
    "0x"@ + hex_text(bytes)
}

/// The text of some bytes.
fn write_hex(bytes: &[u8]) -> (r: String)
    ensures
        r@ == hex_string(bytes@),
{
    let mut s: String = String::from_str("0x");
    let digits: String = encode_hex(bytes);
    s.append(digits.as_str());
    s
}

/// A remote procedure call.
pub open spec fn rpc_call(method: Seq<char>, params: Seq<JsonValue>) -> JsonValue {
    JsonValue::Object(
        Map::empty().insert("jsonrpc"@, JsonValue::Text("2.0"@)).insert(
            "id"@,
            JsonValue::Scalar(numeral(1, 10)),
        ).insert("method"@, JsonValue::Text(method)).insert("params"@, JsonValue::List(params)),
    )
}

/// A remote procedure call.
fn write_rpc_call(method: &str, params: Vec<serde_json::Value>) -> (r: serde_json::Value)
    ensures
        json_value(r) == rpc_call(method@, json_values(params@)),
{
    let mut members = json_map();
    json_set(&mut members, String::from_str("jsonrpc"), json_string(String::from_str("2.0")));
    json_set(&mut members, String::from_str("id"), json_number(1));
    json_set(&mut members, String::from_str("method"), json_string(String::from_str(method)));
    json_set(&mut members, String::from_str("params"), json_list(params));
    json_object(members)
}

/// The call that hands a signed transaction in.
pub fn broadcast_raw(raw: &[u8]) -> (r: serde_json::Value)
    ensures
        json_value(r) == rpc_call(
            "eth_sendRawTransaction"@,
            seq![JsonValue::Text(hex_string(raw@))],
        ),
{
    let params: Vec<serde_json::Value> = vec![json_string(write_hex(raw))];
    assert(json_values(params@) =~= seq![JsonValue::Text(hex_string(raw@))]);
    write_rpc_call("eth_sendRawTransaction", params)
}

/// The call that hands a bundle in: the own transaction, and the one that it serves, for one
/// block.
pub open spec fn bundle_call(signed_raw: Seq<u8>, target_raw: Seq<u8>, block: nat) -> JsonValue {
    rpc_call(
        "eth_sendBundle"@,
        seq![
            JsonValue::Object(
                Map::empty().insert(
                    "txs"@,
                    JsonValue::List(
                        seq![
                            JsonValue::Text(hex_string(signed_raw)),
                            JsonValue::Text(hex_string(target_raw)),
                        ],
                    ),
                ).insert("blockNumber"@, JsonValue::Text("0x"@ + numeral(block, 16))),
            ),
        ],
    )
}

/// A bundle that is to be signed: the call, its bytes, and the digest of these bytes.
pub struct Bundle {
    pub call: serde_json::Value,
    pub body: Vec<u8>,
    pub digest: Digest,
}

impl Bundle {
    /// Whether the bundle is the one of the given transactions and block: its bytes are those of
    /// the call, and its digest is that of its bytes.
    pub open spec fn holds(self, signed_raw: Seq<u8>, target_raw: Seq<u8>, block: nat) -> bool {
        &&& json_value(self.call) == bundle_call(signed_raw, target_raw, block)
        &&& self.body@ == json_text(json_value(self.call))
        &&& self.digest@ == keccak256_digest(self.body@)
    }
}

/// The bundle of the own signed transaction and the one that it serves. What is signed is the
/// digest of the bytes that are sent.
pub fn build_bundle(signed_raw: &[u8], target_raw: &[u8], block: u64) -> (r: Bundle)
    ensures
        r.holds(signed_raw@, target_raw@, block as nat),
{
    let txs: Vec<serde_json::Value> = vec![
        json_string(write_hex(signed_raw)),
        json_string(write_hex(target_raw)),
    ];
    assert(json_values(txs@) =~= seq![
        JsonValue::Text(hex_string(signed_raw@)),
        JsonValue::Text(hex_string(target_raw@)),
    ]);
    let mut number: String = String::from_str("0x");
    let digits: String = write_numeral(block, 16);
    number.append(digits.as_str());
    let mut members = json_map();
    json_set(&mut members, String::from_str("txs"), json_list(txs));
    json_set(&mut members, String::from_str("blockNumber"), json_string(number));
    let params: Vec<serde_json::Value> = vec![json_object(members)];
    assert(json_values(params@) =~= seq![JsonValue::Object(json_members(members))]);
    let call: serde_json::Value = write_rpc_call("eth_sendBundle", params);
    let body: Vec<u8> = match json_bytes(&call) {
        Ok(bytes) => bytes,
        Err(_) => Vec::new(),
    };
    let digest: Digest = keccak256(body.as_slice());
    Bundle { call, body, digest }
}

/// The header that a bundle is sent with: who signed its digest, and the signature.
pub fn bundle_header(wallet: &Address, signature: &[u8]) -> (r: String)
    ensures
        r@ == address_text(wallet@) + ":0x"@ + hex_text(signature@),
{
    let mut header: String = write_address(wallet);
    header.append(":0x");
    let digits: String = encode_hex(signature);
    header.append(digits.as_str());
    header
}

/// Whether a reply is a refusal: it has a member for an error.
pub open spec fn refused(reply: JsonValue) -> bool {
    reply matches JsonValue::Object(m) && m.dom().contains("error"@)
}

/// Counts what a builder has replied: a refused bundle is counted as such, an accepted one as
/// handed in, and a reply that is no JSON is not counted.
pub fn count_reply(m: &mut Metrics, reply: &Option<serde_json::Value>)
    ensures
        final(m)@ == match *reply {
            Some(v) => if refused(json_value(v)) {
                after_simulation(old(m)@, "bundle"@, "rejected"@)
            } else {
                after_submission(old(m)@)
            },
            None => old(m)@,
        },
{
    match reply {
        Some(v) => {
            if has_member(v, "error") {
                record_sim_result(m, "bundle", "rejected");
            } else {
                record_submission(m);
            }
        },
        None => {},
    }
}

/// Counts what a builder has replied.
pub fn count_bundle_reply(m: &mut Metrics, reply: &[u8])
    ensures
        final(m)@ == match json_parse(reply@) {
            Some(v) => if refused(v) {
                after_simulation(old(m)@, "bundle"@, "rejected"@)
            } else {
                after_submission(old(m)@)
            },
            None => old(m)@,
        },
{
    let parsed: Option<serde_json::Value> = parse_json(reply);
    count_reply(m, &parsed);
}

// Escalation.

/// How far an escalated submission has come.
#[derive(Clone, Copy, Debug)]
pub enum EscalationState {
    /// The transaction of this attempt is to be signed and sent.
    Signing { attempt: u8 },
    /// The transaction of this attempt was sent; whether it was mined is to be asked.
    Confirming { attempt: u8, hash: Digest },
    /// The last transaction that was sent, and whether it was mined.
    Finished { hash: Digest, included: bool },
}

/// A transaction that is sent again with a higher tip until it is mined.
pub struct Escalation {
    calldata: Vec<u8>,
    gas_limit: u64,
    max_blocks: u8,
    nonce: u64,
    state: EscalationState,
}

impl EscalationState {
    /// What follows once the transaction was signed and sent.
    pub open spec fn after_sent(self, sent: Digest) -> EscalationState {
        match self {
            EscalationState::Signing { attempt } => EscalationState::Confirming { attempt, hash: sent },
            _ => self,
        }
    }

    /// What follows once it is known whether the transaction was mined.
    pub open spec fn after_asked(self, max_blocks: u8, mined: bool) -> EscalationState {
        match self {
            EscalationState::Confirming { attempt, hash } => if mined {
                EscalationState::Finished { hash, included: true }
            } else if attempt + 1 < max_blocks {
                EscalationState::Signing { attempt: (attempt + 1) as u8 }
            } else {
                EscalationState::Finished { hash, included: false }
            },
            _ => self,
        }
    }

    /// The attempt that is under way.
    pub open spec fn running(self) -> Option<u8> {
        match self {
            EscalationState::Signing { attempt } => Some(attempt),
            EscalationState::Confirming { attempt, .. } => Some(attempt),
            EscalationState::Finished { .. } => None,
        }
    }
}

impl Escalation {
    pub closed spec fn state_of(self) -> EscalationState {
        self.state
    }

    pub closed spec fn most(self) -> u8 {
        self.max_blocks
    }

    /// The nonce of every attempt.
    pub closed spec fn nonce_of(self) -> u64 {
        self.nonce
    }

    pub closed spec fn call(self) -> (Seq<u8>, u64) {
        (self.calldata@, self.gas_limit)
    }

    /// Whether the attempt that is under way is one of those that are allowed.
    pub open spec fn well_formed(self) -> bool {
        self.state_of().running() matches Some(attempt) ==> attempt < self.most()
    }

    /// Whether two states belong to the same submission.
    pub open spec fn same_submission(self, other: Escalation) -> bool {
        &&& self.most() == other.most()
        &&& self.nonce_of() == other.nonce_of()
        &&& self.call() == other.call()
    }

    /// How far the submission has come.
    pub fn state(&self) -> (r: EscalationState)
        ensures
            r == self.state_of(),
    {
        self.state
    }

    /// What is to be signed next: the calldata, its gas limit, the attempt, which sets the tip,
    /// and the nonce.
    pub fn to_sign(&self) -> (r: Option<(&Vec<u8>, u64, u8, u64)>)
        ensures
            r is Some <==> self.state_of() is Signing,
            r matches Some(s) ==> (s.0@, s.1) == self.call() && s.2 == self.state_of()->Signing_attempt
                && s.3 == self.nonce_of(),
    {
        match self.state {
            EscalationState::Signing { attempt } => Some(
                (&self.calldata, self.gas_limit, attempt, self.nonce),
            ),
            _ => None,
        }
    }

    /// Notes that the transaction of this attempt was signed and sent.
    pub fn sent(&mut self, hash: Digest)
        requires
            old(self).well_formed(),
        ensures
            final(self).well_formed(),
            final(self).same_submission(*old(self)),
            final(self).state_of() == old(self).state_of().after_sent(hash),
    {
        match self.state {
            EscalationState::Signing { attempt } => {
                self.state = EscalationState::Confirming { attempt, hash };
            },
            _ => {},
        }
    }

    /// Notes whether the transaction was mined; one that was is counted.
    pub fn confirmed(&mut self, m: &mut Metrics, mined: bool)
        requires
            old(self).well_formed(),
        ensures
            final(self).well_formed(),
            final(self).same_submission(*old(self)),
            final(self).state_of() == old(self).state_of().after_asked(old(self).most(), mined),
            final(m)@ == if old(self).state_of() is Confirming && mined {
                after_inclusion(old(m)@)
            } else {
                old(m)@
            },
    {
        match self.state {
            EscalationState::Confirming { attempt, hash } => {
                if mined {
                    record_inclusion(m);
                    self.state = EscalationState::Finished { hash, included: true };
                } else if attempt + 1 < self.max_blocks {
                    self.state = EscalationState::Signing { attempt: attempt + 1 };
                } else {
                    self.state = EscalationState::Finished { hash, included: false };
                }
            },
            _ => {},
        }
    }
}

impl SubmissionPipeline {
    /// Starts a submission that is sent again with a higher tip until it is mined, at most
    /// `max_blocks` times. All attempts share one nonce.
    pub fn submit_with_escalation(&mut self, calldata: Vec<u8>, gas_limit: u64, max_blocks: u8) -> (r: Escalation)
        ensures
            r.well_formed(),
            r.call() == (calldata@, gas_limit),
            r.most() == max_blocks,
            r.nonce_of() == old(self).next(),
            max_blocks > 0 ==> r.state_of() == (EscalationState::Signing { attempt: 0 }),
            max_blocks == 0 ==> (r.state_of() matches EscalationState::Finished { hash, included }
                && !included && hash@ == Seq::new(32, |i: int| 0u8)),
            final(self).next() == next_nonce(old(self).next()),
            final(self).same_endpoints(*old(self)),
    {
        let nonce: u64 = self.take_nonce();
        let state: EscalationState = if max_blocks > 0 {
            EscalationState::Signing { attempt: 0 }
        } else {
            let hash: Digest = [0u8; 32];
            assert(hash@ =~= Seq::new(32, |i: int| 0u8));
            EscalationState::Finished { hash, included: false }
        };
        Escalation { calldata, gas_limit, max_blocks, nonce, state }
    }
}

/// What follows after some attempts, each of them sent under its own hash; only the last one may
/// have been mined.
pub open spec fn after_attempts(s: EscalationState, max_blocks: u8, hashes: Seq<Digest>, mined: bool) -> EscalationState
    decreases hashes.len(),
{
    if hashes.len() == 0 {
        s
    } else {
        after_attempts(s, max_blocks, hashes.drop_last(), false).after_sent(hashes.last()).after_asked(
            max_blocks,
            mined,
        )
    }
}

/// While no transaction is mined, each attempt follows the one before it.
proof fn lemma_attempts(max_blocks: u8, hashes: Seq<Digest>)
    requires
        0 <= hashes.len() < max_blocks,
    ensures
        after_attempts(EscalationState::Signing { attempt: 0 }, max_blocks, hashes, false)
            == (EscalationState::Signing { attempt: hashes.len() as u8 }),
    decreases hashes.len(),
{
    if hashes.len() > 0 {
        lemma_attempts(max_blocks, hashes.drop_last());
    }
}

/// A submission ends with the first attempt that is mined, or with the last one that is allowed,
/// and tells its hash; a transaction counts as included only where it was mined.
pub proof fn law_escalation_ends(max_blocks: u8, hashes: Seq<Digest>, mined: bool)
    requires
        0 < hashes.len() <= max_blocks,
    ensures
        ({
            let end = after_attempts(
                EscalationState::Signing { attempt: 0 },
                max_blocks,
                hashes,
                mined,
            );
            &&& mined || hashes.len() == max_blocks ==> end == (EscalationState::Finished {
                hash: hashes.last(),
                included: mined,
            })
            &&& !mined && hashes.len() < max_blocks ==> end == (EscalationState::Signing {
                attempt: hashes.len() as u8,
            })
        }),
{
    lemma_attempts(max_blocks, hashes.drop_last());
}

/// A bundle holds the own transaction first and the one that it serves second, for one block; what
/// is called is the method of the builders, with the bundle as its only argument.
pub proof fn law_bundle_puts_the_own_transaction_first(signed_raw: Seq<u8>, target_raw: Seq<u8>, block: nat)
    ensures
        ({
            let call = bundle_call(signed_raw, target_raw, block);
            let members = call->Object_0;
            let bundle = members["params"@]->List_0[0];
            let txs = bundle->Object_0["txs"@];
            &&& call is Object
            &&& members["method"@] == JsonValue::Text("eth_sendBundle"@)
            &&& members["jsonrpc"@] == JsonValue::Text("2.0"@)
            &&& members["id"@] == JsonValue::Scalar(seq!['1'])
            &&& members["params"@] is List && members["params"@]->List_0.len() == 1
            &&& bundle is Object
            &&& txs is List && txs->List_0.len() == 2
            &&& txs->List_0[0] == JsonValue::Text("0x"@ + hex_text(signed_raw))
            &&& txs->List_0[1] == JsonValue::Text("0x"@ + hex_text(target_raw))
            &&& bundle->Object_0["blockNumber"@] == JsonValue::Text("0x"@ + numeral(block, 16))
        }),
{
    reveal_strlit("jsonrpc");
    reveal_strlit("id");
    reveal_strlit("method");
    reveal_strlit("params");
    reveal_strlit("txs");
    reveal_strlit("blockNumber");
    assert("jsonrpc"@.len() == 7 && "id"@.len() == 2 && "method"@.len() == 6 && "params"@.len() == 6);
    assert("method"@[0] == 'm' && "params"@[0] == 'p');
    assert("txs"@.len() == 3 && "blockNumber"@.len() == 11);
    assert(numeral(1, 10) =~= seq!['1']);
}

/// A transaction that was sent is asked for under the hash it was sent under, and the attempt does
/// not change by that; one that is done stays done, whatever comes later.
pub proof fn law_attempts_keep_their_hash(s: EscalationState, sent: Digest, max_blocks: u8, mined: bool)
    ensures
        s matches EscalationState::Signing { attempt } ==> s.after_sent(sent) == (
        EscalationState::Confirming { attempt, hash: sent }),
        !(s is Signing) ==> s.after_sent(sent) == s,
        !(s is Confirming) ==> s.after_asked(max_blocks, mined) == s,
        s matches EscalationState::Confirming { attempt, hash } ==> {
            &&& s.after_asked(max_blocks, mined) is Finished <==> mined || attempt + 1 >= max_blocks
            &&& s.after_asked(max_blocks, mined) matches EscalationState::Finished { hash: h, included }
                ==> h == hash && included == mined
            &&& s.after_asked(max_blocks, mined) matches EscalationState::Signing { attempt: next }
                ==> next == attempt + 1
        },
{
}

/// A reply is a refusal if and only if it is an object with a member that tells an error.
pub proof fn law_refusals_tell_an_error(m: Map<Seq<char>, JsonValue>, error: JsonValue)
    ensures
        refused(JsonValue::Object(m.insert("error"@, error))),
        !refused(JsonValue::Object(m.remove("error"@))),
{
}

} // verus!
