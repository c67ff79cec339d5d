//! Invoice generation and management.
//!
//! The invoice generator is the registry of the invoices that this node has
//! issued. It also defines the text encoding in which an invoice travels:
//! the tag `lni1`, then 164 hexadecimal digits that hold the payment hash, the
//! amount, the expiry and the payment secret, then the description.

use vstd::bytes::{
    lemma_auto_spec_u64_to_from_le_bytes, spec_u64_from_le_bytes, spec_u64_to_le_bytes,
    u64_from_le_bytes, u64_to_le_bytes,
};
use vstd::prelude::*;
use vstd::slice::slice_subrange;

use crate::errors::{InvoiceError, PaymentError, PaymentResult};
use crate::implementation::config::PaymentConfig;
use crate::index::KeyIndex;
use crate::sources::{random_bytes_32, unix_seconds};
use crate::text::{
    chars_of, hex_of, is_hex, lemma_hex_round_trip, push_hex, read_hex,
    string_from_chars, unhex_of,
};
use crate::types::PaymentInvoice;

verus! {

/// What an invoice says, apart from its encoded form.
pub ghost struct InvoiceData {
    pub payment_hash: Seq<u8>,
    pub amount: Option<u64>,
    pub description: Seq<char>,
    pub expiry: u64,
    pub payment_secret: Option<Seq<u8>>,
}

/// Number of characters before the description in an encoded invoice.
pub const ENCODED_HEADER_CHARS: usize = 168;

/// Number of bytes that the hexadecimal part of an encoded invoice holds.
pub const ENCODED_HEADER_BYTES: usize = 82;

/// Thirty-two zero bytes.
pub open spec fn zero_bytes_32() -> Seq<u8> {
    Seq::new(32, |i: int| 0u8)
}

impl InvoiceData {
    /// What a valid invoice holds: a hash and a secret of 32 bytes, and a
    /// description that is not empty.
    pub open spec fn valid(self) -> bool {
        &&& self.payment_hash.len() == 32
        &&& self.description.len() > 0
        &&& self.payment_secret matches Some(secret) ==> secret.len() == 32
    }

    /// The bytes of the hexadecimal part: the hash, a flag and eight bytes for
    /// the amount, eight bytes for the expiry, a flag and 32 bytes for the
    /// secret. Numbers are little-endian; an absent value is written as zeros.
    pub open spec fn header(self) -> Seq<u8> {
        self.payment_hash + seq![
            if self.amount is Some {
                1u8
            } else {
                0u8
            },
        ] + spec_u64_to_le_bytes(
            match self.amount {
                Some(a) => a,
                None => 0,
            },
        ) + spec_u64_to_le_bytes(self.expiry) + seq![
            if self.payment_secret is Some {
                1u8
            } else {
                0u8
            },
        ] + match self.payment_secret {
            Some(secret) => secret,
            None => zero_bytes_32(),
        }
    }

    /// The encoded form of the invoice.
    pub open spec fn encode(self) -> Seq<char> {
        "lni1"@ + hex_of(self.header()) + self.description
    }

    /// What an encoded invoice says, if the text is one.
    pub open spec fn decode(text: Seq<char>) -> Option<InvoiceData> {
        if text.len() > 168 && text.take(4) == "lni1"@ && is_hex(text.subrange(4, 168)) {
            let header = unhex_of(text.subrange(4, 168));
            if header[32] <= 1 && header[49] <= 1 {
                Some(
                    InvoiceData {
                        payment_hash: header.subrange(0, 32),
                        amount: if header[32] == 1 {
                            Some(spec_u64_from_le_bytes(header.subrange(33, 41)))
                        } else {
                            None
                        },
                        description: text.skip(168),
                        expiry: spec_u64_from_le_bytes(header.subrange(41, 49)),
                        payment_secret: if header[49] == 1 {
                            Some(header.subrange(50, 82))
                        } else {
                            None
                        },
                    },
                )
            } else {
                None
            }
        } else {
            None
        }
    }

    /// Encoding then decoding an invoice yields the identical payment hash,
    /// amount, description, expiry and payment secret.
    pub proof fn lemma_round_trip(self)
        requires
            self.valid(),
        ensures
            InvoiceData::decode(self.encode()) == Some(self),
    {
        reveal_strlit("lni1");
        lemma_auto_spec_u64_to_from_le_bytes();
        let header = self.header();
        let text = self.encode();
        lemma_hex_round_trip(header);
        assert(header.len() == 82);
        assert(hex_of(header).len() == 164);
        assert(text.take(4) =~= "lni1"@);
        assert(text.subrange(4, 168) =~= hex_of(header));
        assert(text.skip(168) =~= self.description);
        assert(header.subrange(0, 32) =~= self.payment_hash);
        let amount = match self.amount {
            Some(a) => a,
            None => 0,
        };
        assert(header.subrange(33, 41) =~= spec_u64_to_le_bytes(amount));
        assert(header.subrange(41, 49) =~= spec_u64_to_le_bytes(self.expiry));
        match self.payment_secret {
            Some(secret) => {
                assert(header.subrange(50, 82) =~= secret);
            },
            None => {},
        }
        let decoded = InvoiceData::decode(text)->0;
        assert(decoded.payment_hash == self.payment_hash);
        assert(decoded.amount == self.amount);
        assert(decoded.payment_secret == self.payment_secret);
    }
}

impl PaymentInvoice {
    /// What the invoice says, apart from its encoded form.
    pub open spec fn data(&self) -> InvoiceData {
        InvoiceData {
            payment_hash: self.payment_hash@,
            amount: self.amount,
            description: self.description@,
            expiry: self.expiry,
            payment_secret: match self.payment_secret {
                Some(secret) => Some(secret@),
                None => None,
            },
        }
    }

    /// The amount that the invoice asks for; an invoice without an amount
    /// asks for nothing.
    pub open spec fn requested(&self) -> u64 {
        match self.amount {
            Some(a) => a,
            None => 0,
        }
    }

    /// The invoice's description is not empty and its encoded form is the
    /// encoding of its other fields.
    pub open spec fn consistent(&self) -> bool {
        &&& self.description@.len() > 0
        &&& self.encoded@ == self.data().encode()
    }
}

fn push_bytes(out: &mut Vec<u8>, bytes: &[u8])
    ensures
        final(out)@ == old(out)@ + bytes@,
{
    let ghost before = out@;
    let mut i: usize = 0;
    while i < bytes.len()
        invariant
            i <= bytes.len(),
            out@ == before + bytes@.take(i as int),
        decreases bytes.len() - i,
    {
        out.push(bytes[i]);
        i += 1;
    }
}

fn array_32_from(bytes: &Vec<u8>, start: usize) -> (out: [u8; 32])
    requires
        start + 32 <= bytes@.len(),
    ensures
        out@ == bytes@.subrange(start as int, start + 32),
{
    let mut out = [0u8;32];
    let mut i: usize = 0;
    while i < 32
        invariant
            i <= 32,
            start + 32 <= bytes.len(),
            forall|j: int| 0 <= j < i ==> out@[j] == bytes@[start + j],
        decreases 32 - i,
    {
        out[i] = bytes[start + i];
        i += 1;
    }
    out
}

/// Writes an invoice in its text encoding.
pub fn encode_invoice(
    payment_hash: &[u8; 32],
    amount: Option<u64>,
    description: &str,
    expiry: u64,
    payment_secret: &Option<[u8; 32]>,
) -> (text: String)
    ensures
        text@ == (InvoiceData {
            payment_hash: payment_hash@,
            amount,
            description: description@,
            expiry,
            payment_secret: match *payment_secret {
                Some(secret) => Some(secret@),
                None => None,
            },
        }).encode(),
{
    let mut header: Vec<u8> = Vec::new();
    push_bytes(&mut header, payment_hash.as_slice());
    match amount {
        Some(a) => {
            header.push(1);
            let le = u64_to_le_bytes(a);
            push_bytes(&mut header, le.as_slice());
        },
        None => {
            header.push(0);
            let le = u64_to_le_bytes(0);
            push_bytes(&mut header, le.as_slice());
        },
    }
    let le = u64_to_le_bytes(expiry);
    push_bytes(&mut header, le.as_slice());
    match payment_secret {
        Some(secret) => {
            header.push(1);
            push_bytes(&mut header, secret.as_slice());
        },
        None => {
            header.push(0);
            let zeros = [0u8;32];
            push_bytes(&mut header, zeros.as_slice());
        },
    }
    let mut chars = chars_of("lni1");
    push_hex(&mut chars, header.as_slice());
    let tail = chars_of(description);
    let mut i: usize = 0;
    let ghost head = chars@;
    while i < tail.len()
        invariant
            i <= tail.len(),
            chars@ == head + tail@.take(i as int),
        decreases tail.len() - i,
    {
        chars.push(tail[i]);
        i += 1;
    }
    string_from_chars(&chars)
}

/// Reads an invoice from its text encoding.
///
/// Fails with `InvoiceError::Malformed` when the text is no encoded invoice:
/// when it lacks the tag, the 164 hexadecimal digits or a description, or
/// when a flag is neither 0 nor 1.
pub fn decode_invoice(text: &str) -> (r: PaymentResult<PaymentInvoice>)
    ensures
        match InvoiceData::decode(text@) {
            Some(data) => r is Ok && r->Ok_0.data() == data && r->Ok_0.encoded@ == text@,
            None => r == Err::<PaymentInvoice, PaymentError>(
                PaymentError::Invoice(InvoiceError::Malformed),
            ),
        },
{
    let malformed = Err(PaymentError::Invoice(InvoiceError::Malformed));
    let chars = chars_of(text);
    if chars.len() <= ENCODED_HEADER_CHARS {
        return malformed;
    }
    proof {
        reveal_strlit("lni1");
    }
    if chars[0] != 'l' || chars[1] != 'n' || chars[2] != 'i' || chars[3] != '1' {
        assert(text@.take(4)[0] == text@[0]);
        assert(text@.take(4)[1] == text@[1]);
        assert(text@.take(4)[2] == text@[2]);
        assert(text@.take(4)[3] == text@[3]);
        return malformed;
    }
    assert(text@.take(4) =~= "lni1"@);
    let header = match read_hex(&chars, 4, ENCODED_HEADER_BYTES) {
        Some(header) => header,
        None => {
            return malformed;
        },
    };
    if header[32] > 1 || header[49] > 1 {
        return malformed;
    }
    let payment_hash = array_32_from(&header, 0);
    let amount = if header[32] == 1 {
        Some(u64_from_le_bytes(slice_subrange(header.as_slice(), 33, 41)))
    } else {
        None
    };
    let expiry = u64_from_le_bytes(slice_subrange(header.as_slice(), 41, 49));
    let payment_secret = if header[49] == 1 {
        Some(array_32_from(&header, 50))
    } else {
        None
    };
    let mut rest: Vec<char> = Vec::new();
    let mut i: usize = ENCODED_HEADER_CHARS;
    while i < chars.len()
        invariant
            168 <= i <= chars.len(),
            rest@ == chars@.subrange(168, i as int),
        decreases chars.len() - i,
    {
        rest.push(chars[i]);
        i += 1;
    }
    Ok(
        PaymentInvoice {
            payment_hash,
            amount,
            description: string_from_chars(&rest),
            expiry,
            encoded: string_from_chars(&chars),
            payment_secret,
        },
    )
}

/// Whether some issued invoice has the payment hash `hash`.
pub open spec fn has_invoice(issued: Seq<PaymentInvoice>, hash: Seq<u8>) -> bool {
    exists|i: int| 0 <= i < issued.len() && (#[trigger] issued[i]).payment_hash@ == hash
}

/// The position of an issued invoice with the payment hash `hash`.
pub open spec fn invoice_index(issued: Seq<PaymentInvoice>, hash: Seq<u8>) -> int {
    choose|i: int| 0 <= i < issued.len() && (#[trigger] issued[i]).payment_hash@ == hash
}

/// The outcome of verifying an invoice at the time `now`: an invoice whose
/// expiry lies before `now` has expired, any other is good.
pub open spec fn verify_outcome(expiry: u64, now: u64) -> PaymentResult<bool> {
    if expiry < now {
        Err(PaymentError::Invoice(InvoiceError::Expired))
    } else {
        Ok(true)
    }
}

/// The time at which an invoice made at `now` expires when it lives for
/// `lifetime` seconds.
pub open spec fn expiry_after(now: u64, lifetime: u64) -> int {
    now + lifetime
}

/// Why an invoice cannot be issued, if it cannot.
pub open spec fn issue_refusal(
    issued: Seq<PaymentInvoice>,
    default_expiry: u64,
    description: Seq<char>,
    payment_hash: Seq<u8>,
    now: u64,
    expiry_override: Option<u64>,
) -> Option<InvoiceError> {
    if description.len() == 0 {
        Some(InvoiceError::EmptyDescription)
    } else if expiry_override is None && now + default_expiry > u64::MAX {
        Some(InvoiceError::ExpiryOutOfRange)
    } else if has_invoice(issued, payment_hash) {
        Some(InvoiceError::DuplicatePaymentHash)
    } else {
        None
    }
}

/// Whether `e` is a refusal that generating an invoice with a description
/// can end in: the random source or the clock gave nothing, the expiry does
/// not fit, or the payment hash that was drawn is already registered.
pub open spec fn generation_refusal(e: PaymentError) -> bool {
    ||| e == PaymentError::Invoice(InvoiceError::EntropyUnavailable)
    ||| e == PaymentError::Invoice(InvoiceError::ClockUnavailable)
    ||| e == PaymentError::Invoice(InvoiceError::ExpiryOutOfRange)
    ||| e == PaymentError::Invoice(InvoiceError::DuplicatePaymentHash)
}

/// Invoice generator for creating payment invoices.
#[derive(Debug)]
pub struct InvoiceGenerator {
    config: PaymentConfig,
    issued: Vec<PaymentInvoice>,
    index: KeyIndex,
}

impl InvoiceGenerator {
    /// The invoices issued so far, oldest first.
    pub closed spec fn view(&self) -> Seq<PaymentInvoice> {
        self.issued@
    }

    /// The configuration that the generator was made with.
    pub closed spec fn config(&self) -> PaymentConfig {
        self.config
    }

    /// The index holds exactly the payment hashes that were issued, each
    /// with the position of its invoice.
    pub closed spec fn indexed(&self) -> bool {
        &&& self.index.wf()
        &&& forall|i: int|
            0 <= i < self.issued@.len() ==> self.index.holds(
                (#[trigger] self.issued@[i]).payment_hash@,
            ) && self.index.position(self.issued@[i].payment_hash@) == i
        &&& forall|key: Seq<u8>| #[trigger]
            self.index.holds(key) ==> self.index.position(key) < self.issued@.len()
                && self.issued@[self.index.position(key) as int].payment_hash@ == key
    }

    /// The registry's invariant: no payment hash was issued twice, every
    /// issued invoice is consistent, and the index is up to date.
    pub open spec fn wf(&self) -> bool {
        &&& self.indexed()
        &&& forall|i: int, j: int|
            0 <= i < self@.len() && 0 <= j < self@.len() && i != j ==> (
            #[trigger] self@[i]).payment_hash@ != (#[trigger] self@[j]).payment_hash@
        &&& forall|i: int| 0 <= i < self@.len() ==> (#[trigger] self@[i]).consistent()
    }

    /// Create a new invoice generator.
    #[must_use]
    pub fn new(config: PaymentConfig) -> (generator: Self)
        ensures
            generator.wf(),
            generator@.len() == 0,
            generator.config() == config,
    {
        Self { config, issued: Vec::new(), index: KeyIndex::new() }
    }

    /// Verify an invoice against the time `now`.
    ///
    /// Nothing is changed, so verifying again at a time that is not past the
    /// expiry gives `true` again.
    pub fn verify_at(&self, invoice: &PaymentInvoice, now: u64) -> (r: PaymentResult<bool>)
        ensures
            r == verify_outcome(invoice.expiry, now),
    {
        if invoice.expiry < now {
            return Err(PaymentError::Invoice(InvoiceError::Expired));
        }
        Ok(true)
    }

    /// Verify an invoice against the system clock.
    ///
    /// The result is that of [`InvoiceGenerator::verify_at`] at the time
    /// read, unless the clock cannot be read.
    pub fn verify(&self, invoice: &PaymentInvoice) -> (r: PaymentResult<bool>)
        ensures
            r == Err::<bool, PaymentError>(PaymentError::Invoice(InvoiceError::ClockUnavailable))
                || exists|now: u64| r == verify_outcome(invoice.expiry, now),
    {
        match unix_seconds() {
            Some(now) => self.verify_at(invoice, now),
            None => Err(PaymentError::Invoice(InvoiceError::ClockUnavailable)),
        }
    }

    /// The position of the issued invoice with the given payment hash, in
    /// expected constant time.
    fn position(&self, payment_hash: &[u8; 32]) -> (found: Option<usize>)
        requires
            self.wf(),
        ensures
            found is Some <==> has_invoice(self@, payment_hash@),
            found is Some <==> self.index.holds(payment_hash@),
            found matches Some(i) ==> i < self@.len() && i as int == invoice_index(
                self@,
                payment_hash@,
            ) && self@[i as int].payment_hash@ == payment_hash@,
    {
        let found = self.index.get(payment_hash);
        found
    }

    /// The issued invoice with the given payment hash.
    pub fn lookup(&self, payment_hash: &[u8; 32]) -> (r: PaymentResult<&PaymentInvoice>)
        requires
            self.wf(),
        ensures
            r is Ok <==> has_invoice(self@, payment_hash@),
            r matches Ok(invoice) ==> *invoice == self@[invoice_index(self@, payment_hash@)]
                && invoice.payment_hash@ == payment_hash@,
            r matches Err(e) ==> e == PaymentError::Invoice(InvoiceError::UnknownPaymentHash),
    {
        match self.position(payment_hash) {
            Some(i) => Ok(&self.issued[i]),
            None => Err(PaymentError::Invoice(InvoiceError::UnknownPaymentHash)),
        }
    }

    /// The number of invoices issued so far.
    pub fn issued_count(&self) -> (count: usize)
        ensures
            count == self@.len(),
    {
        self.issued.len()
    }

    /// Issues an invoice with the given payment hash at the time `now`.
    ///
    /// The invoice expires at `expiry_override` if one is given, else at
    /// `now` plus the configured default expiry. It is registered and a copy
    /// is returned. Nothing changes when it is refused.
    pub fn issue(
        &mut self,
        amount: Option<u64>,
        description: &str,
        payment_hash: [u8; 32],
        now: u64,
        expiry_override: Option<u64>,
    ) -> (r: PaymentResult<PaymentInvoice>)
        requires
            old(self).wf(),
        ensures
            final(self).wf(),
            final(self).config() == old(self).config(),
            match issue_refusal(
                old(self)@,
                old(self).config().default_invoice_expiry,
                description@,
                payment_hash@,
                now,
                expiry_override,
            ) {
                Some(e) => r == Err::<PaymentInvoice, PaymentError>(PaymentError::Invoice(e))
                    && final(self)@ == old(self)@,
                None => r is Ok && final(self)@ == old(self)@.push(r->Ok_0) && r->Ok_0.consistent()
                    && r->Ok_0.data() == (InvoiceData {
                    payment_hash: payment_hash@,
                    amount,
                    description: description@,
                    expiry: match expiry_override {
                        Some(at) => at,
                        None => (now + old(self).config().default_invoice_expiry) as u64,
                    },
                    payment_secret: None,
                }),
            },
    {
        if description.is_empty() {
            return Err(PaymentError::Invoice(InvoiceError::EmptyDescription));
        }
        let expiry = match expiry_override {
            Some(at) => at,
            None => {
                if now > u64::MAX - self.config.default_invoice_expiry {
                    return Err(PaymentError::Invoice(InvoiceError::ExpiryOutOfRange));
                }
                now + self.config.default_invoice_expiry
            },
        };
        if self.position(&payment_hash).is_some() {
            return Err(PaymentError::Invoice(InvoiceError::DuplicatePaymentHash));
        }
        let encoded = encode_invoice(&payment_hash, amount, description, expiry, &None);
        let invoice = PaymentInvoice {
            payment_hash,
            amount,
            description: description.to_owned(),
            expiry,
            encoded,
            payment_secret: None,
        };
        let copy = invoice.clone();
        let at = self.issued.len();
        self.index.insert(payment_hash, at);
        self.issued.push(invoice);
        proof {
            assert forall|key: Seq<u8>| #[trigger] self.index.holds(key)
                implies self.index.position(
                key,
            ) < self.issued@.len() && self.issued@[self.index.position(key) as int].payment_hash@
                == key by {
            }
            assert forall|i: int, j: int|
                0 <= i < self@.len() && 0 <= j < self@.len() && i != j implies (
            #[trigger] self@[i]).payment_hash@ != (#[trigger] self@[j]).payment_hash@ by {
            }
        }
        Ok(copy)
    }

    /// Generate a new invoice.
    ///
    /// The payment hash is drawn from the operating system's random source
    /// and the time of issue is read from the system clock. An empty
    /// description is refused as such, and nothing else is; with a
    /// description, only the random source, the clock, the expiry's range or
    /// a payment hash drawn twice can stand in the way.
    pub fn generate_invoice(&mut self, amount: Option<u64>, description: &str) -> (r: PaymentResult<
        PaymentInvoice,
    >)
        requires
            old(self).wf(),
        ensures
            final(self).wf(),
            final(self).config() == old(self).config(),
            description@.len() == 0 <==> r == Err::<PaymentInvoice, PaymentError>(
                PaymentError::Invoice(InvoiceError::EmptyDescription),
            ),
            r matches Err(e) ==> description@.len() == 0 || generation_refusal(e),
            r is Err ==> final(self)@ == old(self)@,
            r matches Ok(invoice) ==> final(self)@ == old(self)@.push(invoice)
                && invoice.consistent() && invoice.amount == amount && invoice.description@
                == description@ && invoice.payment_secret is None && !has_invoice(
                old(self)@,
                invoice.payment_hash@,
            ) && exists|now: u64|
                invoice.expiry == #[trigger] expiry_after(
                    now,
                    old(self).config().default_invoice_expiry,
                ),
    {
        if description.is_empty() {
            return Err(PaymentError::Invoice(InvoiceError::EmptyDescription));
        }
        let payment_hash = match random_bytes_32() {
            Some(payment_hash) => payment_hash,
            None => {
                return Err(PaymentError::Invoice(InvoiceError::EntropyUnavailable));
            },
        };
        let now = match unix_seconds() {
            Some(now) => now,
            None => {
                return Err(PaymentError::Invoice(InvoiceError::ClockUnavailable));
            },
        };
        let r = self.issue(amount, description, payment_hash, now, None);
        proof {
            if r is Ok {
                assert(r->Ok_0.expiry == expiry_after(
                    now,
                    old(self).config().default_invoice_expiry,
                ));
            }
        }
        r
    }
}

/// Verifying an invoice any number of times before it expires gives `true`
/// every time: the outcome depends on the expiry and the time alone.
pub proof fn lemma_verify_is_idempotent(expiry: u64, first: u64, second: u64)
    requires
        first <= expiry,
        second <= expiry,
    ensures
        verify_outcome(expiry, first) == Ok::<bool, PaymentError>(true),
        verify_outcome(expiry, second) == Ok::<bool, PaymentError>(true),
{
}

} // verus!
