//! Round-trip laws of the message schemas: the canonical bytes of a valid
//! message decode and pass the schema again, every field holding the
//! message's own value in canonical form, and the message read back encodes
//! to the same bytes; and bytes accepted as a message are exactly the
//! encoding of the message read from them.

use vstd::prelude::*;
use crate::cbor::{models, spec_decode, spec_encode, spec_encode_raw, Cbor, DecodeError, EncodeError};
use crate::cbor_laws::{canonical_form, lemma_decode_then_encode, lemma_encode_then_decode};
use crate::field_laws::{
    lemma_checked_rules_hold, lemma_found_value_encodes, lemma_nested_rules_hold, lemma_outside_rules_absent,
    lemma_same_fields_encode, lemma_signed_model, rule_holds, rules_hold, same_encoding,
};
use crate::digest::{domain_label, Domain};
use crate::order_laws::{lemma_raw_canonical, lemma_same_values_encode};
use crate::fields::{
    approval_context_rules, check_message, lookup, nested_kind, operation_input_rules, rule_keys, signed_cbor,
    signed_value, spec_fields, FieldSeq, SchemaError,
};
use crate::map_laws::{
    canonical_option, distinct_keys, lemma_canonical_fields, lemma_check_canonical, lemma_check_same_lookups,
    lemma_entry_values_encode, lemma_fields_of_distinct, lemma_fields_of_shape, lemma_keys_from_lookups,
    lemma_lookup_absent, lemma_lookup_present,
};
use crate::schema::{
    optional_bytes, optional_digest, optional_text, ApprovalContext, DecisionSubmission, EnrollmentStatement,
    LifecycleEvent, OperationInput, PlanManifest, Receipt, Request, RevocationEvent, ServiceKeyset,
};

verus! {

impl OperationInput {
    /// The input's single field.
    pub open spec fn field_list(self) -> FieldSeq {
        seq![(1u64, Cbor::Text(self.package_name@))]
    }

    /// The input's map has exactly the field list as fields.
    pub proof fn lemma_field_list(self)
        ensures
            spec_fields(self.spec_cbor()) == Ok::<FieldSeq, SchemaError>(self.field_list()),
            lookup(self.field_list(), 1) == Some(Cbor::Text(self.package_name@)),
    {
        let fl = self.field_list();
        let es = self.spec_cbor()->Entries_0;
        assert(es[0] == (Cbor::Unsigned(fl[0].0), fl[0].1));
        assert(distinct_keys(fl));
        lemma_fields_of_distinct(es, fl, fl.len());
        assert(fl.subrange(0, fl.len() as int) =~= fl);
        lemma_lookup_present(fl, 0);
    }
}

impl Request {
    /// The fields in the order `to_cbor` writes them.
    pub open spec fn field_list(self) -> FieldSeq {
        let base = Seq::empty()
            .push((1u64, Cbor::Unsigned(1)))
            .push((2u64, Cbor::Bytes(self.request_id@)))
            .push((3u64, Cbor::Bytes(self.device_id@)))
            .push((4u64, Cbor::Unsigned(self.broker_epoch)))
            .push((5u64, Cbor::Unsigned(self.generation)))
            .push((6u64, signed_cbor(self.created_utc)))
            .push((7u64, signed_cbor(self.expires_utc)))
            .push((8u64, Cbor::Bytes(self.boot_id@)))
            .push((9u64, Cbor::Unsigned(self.deadline_mono_ns)))
            .push((10u64, Cbor::Bytes(self.nonce@)))
            .push((11u64, Cbor::Unsigned(self.requester_uid)))
            .push((12u64, Cbor::Unsigned(self.operation.spec_code())))
            .push((13u64, self.operation_input.spec_cbor()))
            .push((14u64, Cbor::Bytes(self.policy_id@)))
            .push((15u64, Cbor::Bytes(self.policy_digest@)))
            .push((16u64, Cbor::Bytes(self.plan_digest@)))
            .push((17u64, self.frozen_plan@));
        let with_18 = match self.agent_note {
            Some(x) => base.push((18u64, Cbor::Text(x@))),
            None => base,
        };
        with_18
    }

    /// The map has exactly the field list as fields.
    pub proof fn lemma_field_list(self)
        ensures
            spec_fields(self.spec_cbor()) == Ok::<FieldSeq, SchemaError>(self.field_list()),
            lookup(self.field_list(), 1) == Some(Cbor::Unsigned(1)),
            lookup(self.field_list(), 2) == Some(Cbor::Bytes(self.request_id@)),
            lookup(self.field_list(), 3) == Some(Cbor::Bytes(self.device_id@)),
            lookup(self.field_list(), 4) == Some(Cbor::Unsigned(self.broker_epoch)),
            lookup(self.field_list(), 5) == Some(Cbor::Unsigned(self.generation)),
            lookup(self.field_list(), 6) == Some(signed_cbor(self.created_utc)),
            lookup(self.field_list(), 7) == Some(signed_cbor(self.expires_utc)),
            lookup(self.field_list(), 8) == Some(Cbor::Bytes(self.boot_id@)),
            lookup(self.field_list(), 9) == Some(Cbor::Unsigned(self.deadline_mono_ns)),
            lookup(self.field_list(), 10) == Some(Cbor::Bytes(self.nonce@)),
            lookup(self.field_list(), 11) == Some(Cbor::Unsigned(self.requester_uid)),
            lookup(self.field_list(), 12) == Some(Cbor::Unsigned(self.operation.spec_code())),
            lookup(self.field_list(), 13) == Some(self.operation_input.spec_cbor()),
            lookup(self.field_list(), 14) == Some(Cbor::Bytes(self.policy_id@)),
            lookup(self.field_list(), 15) == Some(Cbor::Bytes(self.policy_digest@)),
            lookup(self.field_list(), 16) == Some(Cbor::Bytes(self.plan_digest@)),
            lookup(self.field_list(), 17) == Some(self.frozen_plan@),
            lookup(self.field_list(), 18) == optional_text(self.agent_note),
            forall|k: u64| k < 1 || k > 18 ==> #[trigger] lookup(self.field_list(), k) is None,
    {
        let fl = self.field_list();
        let es = self.spec_cbor()->Entries_0;
        assert(es.len() == fl.len());
        assert forall|i: int| 0 <= i < fl.len() implies #[trigger] es[i] == (Cbor::Unsigned(fl[i].0), fl[i].1) by {
        }
        assert(distinct_keys(fl));
        lemma_fields_of_distinct(es, fl, fl.len());
        assert(fl.subrange(0, fl.len() as int) =~= fl);
        lemma_lookup_present(fl, 0);
        lemma_lookup_present(fl, 1);
        lemma_lookup_present(fl, 2);
        lemma_lookup_present(fl, 3);
        lemma_lookup_present(fl, 4);
        lemma_lookup_present(fl, 5);
        lemma_lookup_present(fl, 6);
        lemma_lookup_present(fl, 7);
        lemma_lookup_present(fl, 8);
        lemma_lookup_present(fl, 9);
        lemma_lookup_present(fl, 10);
        lemma_lookup_present(fl, 11);
        lemma_lookup_present(fl, 12);
        lemma_lookup_present(fl, 13);
        lemma_lookup_present(fl, 14);
        lemma_lookup_present(fl, 15);
        lemma_lookup_present(fl, 16);
        match self.agent_note {
            Some(_) => {
                lemma_lookup_present(fl, 17);
            },
            None => {
                lemma_lookup_absent(fl, 18);
            },
        }
        assert forall|k: u64| k < 1 || k > 18 implies #[trigger] lookup(fl, k) is None by {
            lemma_lookup_absent(fl, k);
        }
    }
}

/// The canonical bytes of a valid value decode to its canonical form, which
/// passes the schema with every field holding the value's own field in
/// canonical form; every value read from those fields encodes to the
/// same bytes.
pub proof fn lemma_request_round_trip(x: Request)
    requires
        x.spec_validate() is Ok,
        spec_encode(x.spec_cbor()) is Ok,
    ensures
        spec_decode(spec_encode(x.spec_cbor())->Ok_0) == Ok::<Cbor, DecodeError>(canonical_form(x.spec_cbor())),
        Request::check(canonical_form(x.spec_cbor())) is Ok,
        forall|k: u64| #[trigger] lookup(Request::check(canonical_form(x.spec_cbor()))->Ok_0, k)
            == canonical_option(lookup(x.field_list(), k)),
        forall|y: Request| #[trigger] y.agrees_with(Request::check(canonical_form(x.spec_cbor()))->Ok_0)
            ==> spec_encode(y.spec_cbor()) == spec_encode(x.spec_cbor()),
{
    let xc = x.spec_cbor();
    lemma_encode_then_decode(xc);
    x.lemma_field_list();
    lemma_check_canonical(xc, Request::rules());
    assert(lookup(check_message(canonical_form(xc), Request::rules())->Ok_0, 6) == canonical_option(lookup(x.field_list(), 6)));
    assert(lookup(check_message(canonical_form(xc), Request::rules())->Ok_0, 7) == canonical_option(lookup(x.field_list(), 7)));
    assert(lookup(check_message(canonical_form(xc), Request::rules())->Ok_0, 17) == canonical_option(lookup(x.field_list(), 17)));
    let cfs = Request::check(canonical_form(xc))->Ok_0;
    lemma_entry_values_encode(xc);
    assert forall|y: Request| #[trigger] y.agrees_with(cfs) implies spec_encode(y.spec_cbor()) == spec_encode(xc) by {
        let xe = xc->Entries_0;
        let ye = y.spec_cbor()->Entries_0;
        assert(lookup(cfs, 2) == canonical_option(lookup(x.field_list(), 2)));
        assert(lookup(cfs, 3) == canonical_option(lookup(x.field_list(), 3)));
        assert(lookup(cfs, 4) == canonical_option(lookup(x.field_list(), 4)));
        assert(lookup(cfs, 5) == canonical_option(lookup(x.field_list(), 5)));
        assert(lookup(cfs, 6) == canonical_option(lookup(x.field_list(), 6)));
        assert(lookup(cfs, 7) == canonical_option(lookup(x.field_list(), 7)));
        assert(lookup(cfs, 8) == canonical_option(lookup(x.field_list(), 8)));
        assert(lookup(cfs, 9) == canonical_option(lookup(x.field_list(), 9)));
        assert(lookup(cfs, 10) == canonical_option(lookup(x.field_list(), 10)));
        assert(lookup(cfs, 11) == canonical_option(lookup(x.field_list(), 11)));
        assert(lookup(cfs, 12) == canonical_option(lookup(x.field_list(), 12)));
        assert(lookup(cfs, 13) == canonical_option(lookup(x.field_list(), 13)));
        assert(lookup(cfs, 14) == canonical_option(lookup(x.field_list(), 14)));
        assert(lookup(cfs, 15) == canonical_option(lookup(x.field_list(), 15)));
        assert(lookup(cfs, 16) == canonical_option(lookup(x.field_list(), 16)));
        assert(lookup(cfs, 17) == canonical_option(lookup(x.field_list(), 17)));
        assert(lookup(cfs, 18) == canonical_option(lookup(x.field_list(), 18)));
        assert(signed_value(signed_cbor(x.created_utc)) == x.created_utc);
        assert(signed_value(signed_cbor(x.expires_utc)) == x.expires_utc);
        assert(xe[12].1 == x.operation_input.spec_cbor());
        x.operation_input.lemma_field_list();
        lemma_canonical_fields(x.operation_input.spec_cbor());
        let nf = spec_fields(canonical_form(x.operation_input.spec_cbor()))->Ok_0;
        assert(lookup(nf, 1) == canonical_option(lookup(x.operation_input.field_list(), 1)));
        assert(y.operation_input.spec_cbor() == x.operation_input.spec_cbor());
        assert(xe[16].1 == x.frozen_plan@);
        lemma_raw_canonical(x.frozen_plan@);
        lemma_same_values_encode(xe, ye);
    }
}

impl ApprovalContext {
    /// The fields in the order `to_cbor` writes them.
    pub open spec fn field_list(self) -> FieldSeq {
        let base = Seq::empty()
            .push((1u64, Cbor::Unsigned(1)))
            .push((2u64, Cbor::Bytes(self.request_id@)))
            .push((3u64, Cbor::Bytes(self.device_id@)))
            .push((4u64, Cbor::Unsigned(self.broker_epoch)))
            .push((5u64, Cbor::Bytes(self.request_digest@)))
            .push((6u64, Cbor::Unsigned(self.generation)))
            .push((7u64, Cbor::Bytes(self.nonce@)))
            .push((8u64, Cbor::Text(self.rp_id@)))
            .push((9u64, Cbor::Text(self.origin@)))
            .push((10u64, Cbor::Unsigned(self.decision.spec_code())))
            .push((11u64, signed_cbor(self.expires_utc)));
        base
    }

    /// The map has exactly the field list as fields.
    pub proof fn lemma_field_list(self)
        ensures
            spec_fields(self.spec_cbor()) == Ok::<FieldSeq, SchemaError>(self.field_list()),
            lookup(self.field_list(), 1) == Some(Cbor::Unsigned(1)),
            lookup(self.field_list(), 2) == Some(Cbor::Bytes(self.request_id@)),
            lookup(self.field_list(), 3) == Some(Cbor::Bytes(self.device_id@)),
            lookup(self.field_list(), 4) == Some(Cbor::Unsigned(self.broker_epoch)),
            lookup(self.field_list(), 5) == Some(Cbor::Bytes(self.request_digest@)),
            lookup(self.field_list(), 6) == Some(Cbor::Unsigned(self.generation)),
            lookup(self.field_list(), 7) == Some(Cbor::Bytes(self.nonce@)),
            lookup(self.field_list(), 8) == Some(Cbor::Text(self.rp_id@)),
            lookup(self.field_list(), 9) == Some(Cbor::Text(self.origin@)),
            lookup(self.field_list(), 10) == Some(Cbor::Unsigned(self.decision.spec_code())),
            lookup(self.field_list(), 11) == Some(signed_cbor(self.expires_utc)),
            forall|k: u64| k < 1 || k > 11 ==> #[trigger] lookup(self.field_list(), k) is None,
    {
        let fl = self.field_list();
        let es = self.spec_cbor()->Entries_0;
        assert(es.len() == fl.len());
        assert forall|i: int| 0 <= i < fl.len() implies #[trigger] es[i] == (Cbor::Unsigned(fl[i].0), fl[i].1) by {
        }
        assert(distinct_keys(fl));
        lemma_fields_of_distinct(es, fl, fl.len());
        assert(fl.subrange(0, fl.len() as int) =~= fl);
        lemma_lookup_present(fl, 0);
        lemma_lookup_present(fl, 1);
        lemma_lookup_present(fl, 2);
        lemma_lookup_present(fl, 3);
        lemma_lookup_present(fl, 4);
        lemma_lookup_present(fl, 5);
        lemma_lookup_present(fl, 6);
        lemma_lookup_present(fl, 7);
        lemma_lookup_present(fl, 8);
        lemma_lookup_present(fl, 9);
        lemma_lookup_present(fl, 10);
        assert forall|k: u64| k < 1 || k > 11 implies #[trigger] lookup(fl, k) is None by {
            lemma_lookup_absent(fl, k);
        }
    }
}

/// The canonical bytes of a valid value decode to its canonical form, which
/// passes the schema with every field holding the value's own field in
/// canonical form; every value read from those fields encodes to the
/// same bytes.
pub proof fn lemma_approval_context_round_trip(x: ApprovalContext)
    requires
        x.spec_validate() is Ok,
        spec_encode(x.spec_cbor()) is Ok,
    ensures
        spec_decode(spec_encode(x.spec_cbor())->Ok_0) == Ok::<Cbor, DecodeError>(canonical_form(x.spec_cbor())),
        ApprovalContext::check(canonical_form(x.spec_cbor())) is Ok,
        forall|k: u64| #[trigger] lookup(ApprovalContext::check(canonical_form(x.spec_cbor()))->Ok_0, k)
            == canonical_option(lookup(x.field_list(), k)),
        forall|y: ApprovalContext| #[trigger] y.agrees_with(ApprovalContext::check(canonical_form(x.spec_cbor()))->Ok_0)
            ==> spec_encode(y.spec_cbor()) == spec_encode(x.spec_cbor()),
{
    let xc = x.spec_cbor();
    lemma_encode_then_decode(xc);
    x.lemma_field_list();
    lemma_check_canonical(xc, ApprovalContext::rules());
    let cfs = ApprovalContext::check(canonical_form(xc))->Ok_0;
    lemma_entry_values_encode(xc);
    assert forall|y: ApprovalContext| #[trigger] y.agrees_with(cfs) implies spec_encode(y.spec_cbor()) == spec_encode(xc) by {
        let xe = xc->Entries_0;
        let ye = y.spec_cbor()->Entries_0;
        assert(lookup(cfs, 2) == canonical_option(lookup(x.field_list(), 2)));
        assert(lookup(cfs, 3) == canonical_option(lookup(x.field_list(), 3)));
        assert(lookup(cfs, 4) == canonical_option(lookup(x.field_list(), 4)));
        assert(lookup(cfs, 5) == canonical_option(lookup(x.field_list(), 5)));
        assert(lookup(cfs, 6) == canonical_option(lookup(x.field_list(), 6)));
        assert(lookup(cfs, 7) == canonical_option(lookup(x.field_list(), 7)));
        assert(lookup(cfs, 8) == canonical_option(lookup(x.field_list(), 8)));
        assert(lookup(cfs, 9) == canonical_option(lookup(x.field_list(), 9)));
        assert(lookup(cfs, 10) == canonical_option(lookup(x.field_list(), 10)));
        assert(lookup(cfs, 11) == canonical_option(lookup(x.field_list(), 11)));
        assert(signed_value(signed_cbor(x.expires_utc)) == x.expires_utc);
        lemma_same_values_encode(xe, ye);
    }
}

impl DecisionSubmission {
    /// The fields in the order `to_cbor` writes them.
    pub open spec fn field_list(self) -> FieldSeq {
        let base = Seq::empty()
            .push((1u64, Cbor::Unsigned(1)))
            .push((2u64, self.approval_context.spec_cbor()))
            .push((3u64, Cbor::Bytes(self.credential_id@)))
            .push((4u64, Cbor::Bytes(self.authenticator_data@)))
            .push((5u64, Cbor::Bytes(self.client_data_json@)))
            .push((6u64, Cbor::Bytes(self.signature@)));
        let with_7 = match self.user_handle {
            Some(x) => base.push((7u64, Cbor::Bytes(x@))),
            None => base,
        };
        with_7
    }

    /// The map has exactly the field list as fields.
    pub proof fn lemma_field_list(self)
        ensures
            spec_fields(self.spec_cbor()) == Ok::<FieldSeq, SchemaError>(self.field_list()),
            lookup(self.field_list(), 1) == Some(Cbor::Unsigned(1)),
            lookup(self.field_list(), 2) == Some(self.approval_context.spec_cbor()),
            lookup(self.field_list(), 3) == Some(Cbor::Bytes(self.credential_id@)),
            lookup(self.field_list(), 4) == Some(Cbor::Bytes(self.authenticator_data@)),
            lookup(self.field_list(), 5) == Some(Cbor::Bytes(self.client_data_json@)),
            lookup(self.field_list(), 6) == Some(Cbor::Bytes(self.signature@)),
            lookup(self.field_list(), 7) == optional_bytes(self.user_handle),
            forall|k: u64| k < 1 || k > 7 ==> #[trigger] lookup(self.field_list(), k) is None,
    {
        let fl = self.field_list();
        let es = self.spec_cbor()->Entries_0;
        assert(es.len() == fl.len());
        assert forall|i: int| 0 <= i < fl.len() implies #[trigger] es[i] == (Cbor::Unsigned(fl[i].0), fl[i].1) by {
        }
        assert(distinct_keys(fl));
        lemma_fields_of_distinct(es, fl, fl.len());
        assert(fl.subrange(0, fl.len() as int) =~= fl);
        lemma_lookup_present(fl, 0);
        lemma_lookup_present(fl, 1);
        lemma_lookup_present(fl, 2);
        lemma_lookup_present(fl, 3);
        lemma_lookup_present(fl, 4);
        lemma_lookup_present(fl, 5);
        match self.user_handle {
            Some(_) => {
                lemma_lookup_present(fl, 6);
            },
            None => {
                lemma_lookup_absent(fl, 7);
            },
        }
        assert forall|k: u64| k < 1 || k > 7 implies #[trigger] lookup(fl, k) is None by {
            lemma_lookup_absent(fl, k);
        }
    }
}

/// The canonical bytes of a valid value decode to its canonical form, which
/// passes the schema with every field holding the value's own field in
/// canonical form; every value read from those fields encodes to the
/// same bytes.
pub proof fn lemma_decision_submission_round_trip(x: DecisionSubmission)
    requires
        x.spec_validate() is Ok,
        spec_encode(x.spec_cbor()) is Ok,
    ensures
        spec_decode(spec_encode(x.spec_cbor())->Ok_0) == Ok::<Cbor, DecodeError>(canonical_form(x.spec_cbor())),
        DecisionSubmission::check(canonical_form(x.spec_cbor())) is Ok,
        forall|k: u64| #[trigger] lookup(DecisionSubmission::check(canonical_form(x.spec_cbor()))->Ok_0, k)
            == canonical_option(lookup(x.field_list(), k)),
        forall|y: DecisionSubmission| #[trigger] y.agrees_with(DecisionSubmission::check(canonical_form(x.spec_cbor()))->Ok_0)
            ==> spec_encode(y.spec_cbor()) == spec_encode(x.spec_cbor()),
{
    let xc = x.spec_cbor();
    lemma_encode_then_decode(xc);
    x.lemma_field_list();
    lemma_check_canonical(xc, DecisionSubmission::rules());
    let cfs = DecisionSubmission::check(canonical_form(xc))->Ok_0;
    lemma_entry_values_encode(xc);
    assert forall|y: DecisionSubmission| #[trigger] y.agrees_with(cfs) implies spec_encode(y.spec_cbor()) == spec_encode(xc) by {
        let xe = xc->Entries_0;
        let ye = y.spec_cbor()->Entries_0;
        assert(lookup(cfs, 2) == canonical_option(lookup(x.field_list(), 2)));
        assert(lookup(cfs, 3) == canonical_option(lookup(x.field_list(), 3)));
        assert(lookup(cfs, 4) == canonical_option(lookup(x.field_list(), 4)));
        assert(lookup(cfs, 5) == canonical_option(lookup(x.field_list(), 5)));
        assert(lookup(cfs, 6) == canonical_option(lookup(x.field_list(), 6)));
        assert(lookup(cfs, 7) == canonical_option(lookup(x.field_list(), 7)));
        assert(xe[1].1 == x.approval_context.spec_cbor());
        x.approval_context.lemma_field_list();
        lemma_canonical_fields(x.approval_context.spec_cbor());
        let nf = spec_fields(canonical_form(x.approval_context.spec_cbor()))->Ok_0;
        assert(lookup(nf, 1) == canonical_option(lookup(x.approval_context.field_list(), 1)));
        assert(lookup(nf, 2) == canonical_option(lookup(x.approval_context.field_list(), 2)));
        assert(lookup(nf, 3) == canonical_option(lookup(x.approval_context.field_list(), 3)));
        assert(lookup(nf, 4) == canonical_option(lookup(x.approval_context.field_list(), 4)));
        assert(lookup(nf, 5) == canonical_option(lookup(x.approval_context.field_list(), 5)));
        assert(lookup(nf, 6) == canonical_option(lookup(x.approval_context.field_list(), 6)));
        assert(lookup(nf, 7) == canonical_option(lookup(x.approval_context.field_list(), 7)));
        assert(lookup(nf, 8) == canonical_option(lookup(x.approval_context.field_list(), 8)));
        assert(lookup(nf, 9) == canonical_option(lookup(x.approval_context.field_list(), 9)));
        assert(lookup(nf, 10) == canonical_option(lookup(x.approval_context.field_list(), 10)));
        assert(lookup(nf, 11) == canonical_option(lookup(x.approval_context.field_list(), 11)));
        assert(signed_value(signed_cbor(x.approval_context.expires_utc)) == x.approval_context.expires_utc);
        assert(y.approval_context.spec_cbor() == x.approval_context.spec_cbor());
        lemma_same_values_encode(xe, ye);
    }
}

impl PlanManifest {
    /// The fields in the order `to_cbor` writes them.
    pub open spec fn field_list(self) -> FieldSeq {
        let base = Seq::empty()
            .push((1u64, Cbor::Unsigned(1)))
            .push((2u64, Cbor::Bytes(self.plan_digest@)))
            .push((3u64, Cbor::Array(models(self.inputs@))))
            .push((4u64, self.action_graph@))
            .push((5u64, Cbor::Bytes(self.policy_digest@)))
            .push((6u64, signed_cbor(self.created_utc)))
            .push((7u64, self.toolchain@))
            .push((8u64, self.prestate_observation@));
        base
    }

    /// The map has exactly the field list as fields.
    pub proof fn lemma_field_list(self)
        ensures
            spec_fields(self.spec_cbor()) == Ok::<FieldSeq, SchemaError>(self.field_list()),
            lookup(self.field_list(), 1) == Some(Cbor::Unsigned(1)),
            lookup(self.field_list(), 2) == Some(Cbor::Bytes(self.plan_digest@)),
            lookup(self.field_list(), 3) == Some(Cbor::Array(models(self.inputs@))),
            lookup(self.field_list(), 4) == Some(self.action_graph@),
            lookup(self.field_list(), 5) == Some(Cbor::Bytes(self.policy_digest@)),
            lookup(self.field_list(), 6) == Some(signed_cbor(self.created_utc)),
            lookup(self.field_list(), 7) == Some(self.toolchain@),
            lookup(self.field_list(), 8) == Some(self.prestate_observation@),
            forall|k: u64| k < 1 || k > 8 ==> #[trigger] lookup(self.field_list(), k) is None,
    {
        let fl = self.field_list();
        let es = self.spec_cbor()->Entries_0;
        assert(es.len() == fl.len());
        assert forall|i: int| 0 <= i < fl.len() implies #[trigger] es[i] == (Cbor::Unsigned(fl[i].0), fl[i].1) by {
        }
        assert(distinct_keys(fl));
        lemma_fields_of_distinct(es, fl, fl.len());
        assert(fl.subrange(0, fl.len() as int) =~= fl);
        lemma_lookup_present(fl, 0);
        lemma_lookup_present(fl, 1);
        lemma_lookup_present(fl, 2);
        lemma_lookup_present(fl, 3);
        lemma_lookup_present(fl, 4);
        lemma_lookup_present(fl, 5);
        lemma_lookup_present(fl, 6);
        lemma_lookup_present(fl, 7);
        assert forall|k: u64| k < 1 || k > 8 implies #[trigger] lookup(fl, k) is None by {
            lemma_lookup_absent(fl, k);
        }
    }
}

/// The canonical bytes of a valid value decode to its canonical form, which
/// passes the schema with every field holding the value's own field in
/// canonical form; every value read from those fields is valid and
/// encodes to the same bytes.
#[verifier::rlimit(60)]
pub proof fn lemma_plan_manifest_round_trip(x: PlanManifest)
    requires
        x.spec_validate() is Ok,
        spec_encode(x.spec_cbor()) is Ok,
    ensures
        spec_decode(spec_encode(x.spec_cbor())->Ok_0) == Ok::<Cbor, DecodeError>(canonical_form(x.spec_cbor())),
        PlanManifest::check(canonical_form(x.spec_cbor())) is Ok,
        forall|k: u64| #[trigger] lookup(PlanManifest::check(canonical_form(x.spec_cbor()))->Ok_0, k)
            == canonical_option(lookup(x.field_list(), k)),
        forall|y: PlanManifest| #[trigger] y.agrees_with(PlanManifest::check(canonical_form(x.spec_cbor()))->Ok_0) ==> y.spec_validate() is Ok,
        forall|y: PlanManifest| #[trigger] y.agrees_with(PlanManifest::check(canonical_form(x.spec_cbor()))->Ok_0)
            ==> spec_encode(y.spec_cbor()) == spec_encode(x.spec_cbor()),
{
    let xc = x.spec_cbor();
    lemma_encode_then_decode(xc);
    x.lemma_field_list();
    lemma_check_canonical(xc, PlanManifest::rules());
    let cfs = PlanManifest::check(canonical_form(xc))->Ok_0;
    assert forall|y: PlanManifest| #[trigger] y.agrees_with(cfs) implies y.spec_validate() is Ok by {
        y.lemma_field_list();
        let yl = y.field_list();
        assert forall|k: u64| #[trigger] lookup(cfs, k) == lookup(yl, k) by {
            assert(lookup(cfs, k) == canonical_option(lookup(x.field_list(), k)));
            if k == 6 {
                assert(signed_value(signed_cbor(x.created_utc)) == x.created_utc);
            }
        }
        lemma_keys_from_lookups(cfs, yl);
        lemma_check_same_lookups(canonical_form(xc), y.spec_cbor(), PlanManifest::rules());
    }
    lemma_entry_values_encode(xc);
    assert forall|y: PlanManifest| #[trigger] y.agrees_with(cfs) implies spec_encode(y.spec_cbor()) == spec_encode(xc) by {
        let xe = xc->Entries_0;
        let ye = y.spec_cbor()->Entries_0;
        assert(lookup(cfs, 2) == canonical_option(lookup(x.field_list(), 2)));
        assert(lookup(cfs, 3) == canonical_option(lookup(x.field_list(), 3)));
        assert(lookup(cfs, 4) == canonical_option(lookup(x.field_list(), 4)));
        assert(lookup(cfs, 5) == canonical_option(lookup(x.field_list(), 5)));
        assert(lookup(cfs, 6) == canonical_option(lookup(x.field_list(), 6)));
        assert(lookup(cfs, 7) == canonical_option(lookup(x.field_list(), 7)));
        assert(lookup(cfs, 8) == canonical_option(lookup(x.field_list(), 8)));
        assert(xe[2].1 == Cbor::Array(models(x.inputs@)));
        lemma_raw_canonical(Cbor::Array(models(x.inputs@)));
        assert(xe[3].1 == x.action_graph@);
        lemma_raw_canonical(x.action_graph@);
        assert(signed_value(signed_cbor(x.created_utc)) == x.created_utc);
        assert(xe[6].1 == x.toolchain@);
        lemma_raw_canonical(x.toolchain@);
        assert(xe[7].1 == x.prestate_observation@);
        lemma_raw_canonical(x.prestate_observation@);
        lemma_same_values_encode(xe, ye);
    }
}

impl LifecycleEvent {
    /// The fields in the order `to_cbor` writes them.
    pub open spec fn field_list(self) -> FieldSeq {
        let base = Seq::empty()
            .push((1u64, Cbor::Unsigned(1)))
            .push((2u64, Cbor::Bytes(self.request_id@)))
            .push((3u64, Cbor::Unsigned(self.sequence)))
            .push((5u64, Cbor::Bytes(self.request_digest@)))
            .push((6u64, Cbor::Unsigned(self.broker_epoch)))
            .push((7u64, Cbor::Unsigned(self.transition)))
            .push((8u64, signed_cbor(self.occurred_utc)))
            .push((9u64, Cbor::Unsigned(self.detail_code)));
        let with_4 = match self.previous_event_digest {
            Some(x) => base.push((4u64, Cbor::Bytes(x@))),
            None => base,
        };
        let with_10 = match self.detail_digest {
            Some(x) => with_4.push((10u64, Cbor::Bytes(x@))),
            None => with_4,
        };
        with_10
    }

    /// The map has exactly the field list as fields.
    pub proof fn lemma_field_list(self)
        ensures
            spec_fields(self.spec_cbor()) == Ok::<FieldSeq, SchemaError>(self.field_list()),
            lookup(self.field_list(), 1) == Some(Cbor::Unsigned(1)),
            lookup(self.field_list(), 2) == Some(Cbor::Bytes(self.request_id@)),
            lookup(self.field_list(), 3) == Some(Cbor::Unsigned(self.sequence)),
            lookup(self.field_list(), 5) == Some(Cbor::Bytes(self.request_digest@)),
            lookup(self.field_list(), 6) == Some(Cbor::Unsigned(self.broker_epoch)),
            lookup(self.field_list(), 7) == Some(Cbor::Unsigned(self.transition)),
            lookup(self.field_list(), 8) == Some(signed_cbor(self.occurred_utc)),
            lookup(self.field_list(), 9) == Some(Cbor::Unsigned(self.detail_code)),
            lookup(self.field_list(), 4) == optional_digest(self.previous_event_digest),
            lookup(self.field_list(), 10) == optional_digest(self.detail_digest),
            forall|k: u64| k < 1 || k > 10 ==> #[trigger] lookup(self.field_list(), k) is None,
    {
        let fl = self.field_list();
        let es = self.spec_cbor()->Entries_0;
        assert(es.len() == fl.len());
        assert forall|i: int| 0 <= i < fl.len() implies #[trigger] es[i] == (Cbor::Unsigned(fl[i].0), fl[i].1) by {
        }
        assert(distinct_keys(fl));
        lemma_fields_of_distinct(es, fl, fl.len());
        assert(fl.subrange(0, fl.len() as int) =~= fl);
        lemma_lookup_present(fl, 0);
        lemma_lookup_present(fl, 1);
        lemma_lookup_present(fl, 2);
        lemma_lookup_present(fl, 3);
        lemma_lookup_present(fl, 4);
        lemma_lookup_present(fl, 5);
        lemma_lookup_present(fl, 6);
        lemma_lookup_present(fl, 7);
        match (self.previous_event_digest, self.detail_digest) {
            (Some(_), Some(_)) => {
                lemma_lookup_present(fl, 8);
                lemma_lookup_present(fl, 9);
            },
            (Some(_), None) => {
                lemma_lookup_present(fl, 8);
                lemma_lookup_absent(fl, 10);
            },
            (None, Some(_)) => {
                lemma_lookup_absent(fl, 4);
                lemma_lookup_present(fl, 8);
            },
            (None, None) => {
                lemma_lookup_absent(fl, 4);
                lemma_lookup_absent(fl, 10);
            },
        }
        assert forall|k: u64| k < 1 || k > 10 implies #[trigger] lookup(fl, k) is None by {
            lemma_lookup_absent(fl, k);
        }
    }
}

/// The canonical bytes of a valid value decode to its canonical form, which
/// passes the schema with every field holding the value's own field in
/// canonical form; every value read from those fields is valid and
/// encodes to the same bytes.
#[verifier::rlimit(60)]
pub proof fn lemma_lifecycle_event_round_trip(x: LifecycleEvent)
    requires
        x.spec_validate() is Ok,
        spec_encode(x.spec_cbor()) is Ok,
    ensures
        spec_decode(spec_encode(x.spec_cbor())->Ok_0) == Ok::<Cbor, DecodeError>(canonical_form(x.spec_cbor())),
        LifecycleEvent::check(canonical_form(x.spec_cbor())) is Ok,
        forall|k: u64| #[trigger] lookup(LifecycleEvent::check(canonical_form(x.spec_cbor()))->Ok_0, k)
            == canonical_option(lookup(x.field_list(), k)),
        forall|y: LifecycleEvent| #[trigger] y.agrees_with(LifecycleEvent::check(canonical_form(x.spec_cbor()))->Ok_0) ==> y.spec_validate() is Ok,
        forall|y: LifecycleEvent| #[trigger] y.agrees_with(LifecycleEvent::check(canonical_form(x.spec_cbor()))->Ok_0)
            ==> spec_encode(y.spec_cbor()) == spec_encode(x.spec_cbor()),
{
    let xc = x.spec_cbor();
    lemma_encode_then_decode(xc);
    x.lemma_field_list();
    lemma_check_canonical(xc, LifecycleEvent::rules());
    let cfs = LifecycleEvent::check(canonical_form(xc))->Ok_0;
    assert forall|y: LifecycleEvent| #[trigger] y.agrees_with(cfs) implies y.spec_validate() is Ok by {
        y.lemma_field_list();
        let yl = y.field_list();
        assert forall|k: u64| #[trigger] lookup(cfs, k) == lookup(yl, k) by {
            assert(lookup(cfs, k) == canonical_option(lookup(x.field_list(), k)));
            if k == 8 {
                assert(signed_value(signed_cbor(x.occurred_utc)) == x.occurred_utc);
            }
        }
        lemma_keys_from_lookups(cfs, yl);
        lemma_check_same_lookups(canonical_form(xc), y.spec_cbor(), LifecycleEvent::rules());
    }
    lemma_entry_values_encode(xc);
    assert forall|y: LifecycleEvent| #[trigger] y.agrees_with(cfs) implies spec_encode(y.spec_cbor()) == spec_encode(xc) by {
        let xe = xc->Entries_0;
        let ye = y.spec_cbor()->Entries_0;
        assert(lookup(cfs, 2) == canonical_option(lookup(x.field_list(), 2)));
        assert(lookup(cfs, 3) == canonical_option(lookup(x.field_list(), 3)));
        assert(lookup(cfs, 4) == canonical_option(lookup(x.field_list(), 4)));
        assert(lookup(cfs, 5) == canonical_option(lookup(x.field_list(), 5)));
        assert(lookup(cfs, 6) == canonical_option(lookup(x.field_list(), 6)));
        assert(lookup(cfs, 7) == canonical_option(lookup(x.field_list(), 7)));
        assert(lookup(cfs, 8) == canonical_option(lookup(x.field_list(), 8)));
        assert(lookup(cfs, 9) == canonical_option(lookup(x.field_list(), 9)));
        assert(lookup(cfs, 10) == canonical_option(lookup(x.field_list(), 10)));
        assert(signed_value(signed_cbor(x.occurred_utc)) == x.occurred_utc);
        lemma_same_values_encode(xe, ye);
    }
}

impl Receipt {
    /// The fields in the order `to_cbor` writes them.
    pub open spec fn field_list(self) -> FieldSeq {
        let base = Seq::empty()
            .push((1u64, Cbor::Unsigned(1)))
            .push((2u64, Cbor::Bytes(self.receipt_id@)))
            .push((3u64, Cbor::Bytes(self.request_id@)))
            .push((4u64, Cbor::Bytes(self.request_digest@)))
            .push((5u64, Cbor::Bytes(self.plan_digest@)))
            .push((6u64, Cbor::Unsigned(self.terminal_state)))
            .push((7u64, Cbor::Array(models(self.authorization_evidence@))))
            .push((8u64, self.prestate_evidence@))
            .push((9u64, self.execution_evidence@))
            .push((10u64, signed_cbor(self.created_utc)))
            .push((11u64, signed_cbor(self.completed_utc)))
            .push((12u64, Cbor::Unsigned(self.broker_epoch)));
        base
    }

    /// The map has exactly the field list as fields.
    pub proof fn lemma_field_list(self)
        ensures
            spec_fields(self.spec_cbor()) == Ok::<FieldSeq, SchemaError>(self.field_list()),
            lookup(self.field_list(), 1) == Some(Cbor::Unsigned(1)),
            lookup(self.field_list(), 2) == Some(Cbor::Bytes(self.receipt_id@)),
            lookup(self.field_list(), 3) == Some(Cbor::Bytes(self.request_id@)),
            lookup(self.field_list(), 4) == Some(Cbor::Bytes(self.request_digest@)),
            lookup(self.field_list(), 5) == Some(Cbor::Bytes(self.plan_digest@)),
            lookup(self.field_list(), 6) == Some(Cbor::Unsigned(self.terminal_state)),
            lookup(self.field_list(), 7) == Some(Cbor::Array(models(self.authorization_evidence@))),
            lookup(self.field_list(), 8) == Some(self.prestate_evidence@),
            lookup(self.field_list(), 9) == Some(self.execution_evidence@),
            lookup(self.field_list(), 10) == Some(signed_cbor(self.created_utc)),
            lookup(self.field_list(), 11) == Some(signed_cbor(self.completed_utc)),
            lookup(self.field_list(), 12) == Some(Cbor::Unsigned(self.broker_epoch)),
            forall|k: u64| k < 1 || k > 12 ==> #[trigger] lookup(self.field_list(), k) is None,
    {
        let fl = self.field_list();
        let es = self.spec_cbor()->Entries_0;
        assert(es.len() == fl.len());
        assert forall|i: int| 0 <= i < fl.len() implies #[trigger] es[i] == (Cbor::Unsigned(fl[i].0), fl[i].1) by {
        }
        assert(distinct_keys(fl));
        lemma_fields_of_distinct(es, fl, fl.len());
        assert(fl.subrange(0, fl.len() as int) =~= fl);
        lemma_lookup_present(fl, 0);
        lemma_lookup_present(fl, 1);
        lemma_lookup_present(fl, 2);
        lemma_lookup_present(fl, 3);
        lemma_lookup_present(fl, 4);
        lemma_lookup_present(fl, 5);
        lemma_lookup_present(fl, 6);
        lemma_lookup_present(fl, 7);
        lemma_lookup_present(fl, 8);
        lemma_lookup_present(fl, 9);
        lemma_lookup_present(fl, 10);
        lemma_lookup_present(fl, 11);
        assert forall|k: u64| k < 1 || k > 12 implies #[trigger] lookup(fl, k) is None by {
            lemma_lookup_absent(fl, k);
        }
    }
}

/// The canonical bytes of a valid value decode to its canonical form, which
/// passes the schema with every field holding the value's own field in
/// canonical form; every value read from those fields is valid and
/// encodes to the same bytes.
#[verifier::rlimit(60)]
pub proof fn lemma_receipt_round_trip(x: Receipt)
    requires
        x.spec_validate() is Ok,
        spec_encode(x.spec_cbor()) is Ok,
    ensures
        spec_decode(spec_encode(x.spec_cbor())->Ok_0) == Ok::<Cbor, DecodeError>(canonical_form(x.spec_cbor())),
        Receipt::check(canonical_form(x.spec_cbor())) is Ok,
        forall|k: u64| #[trigger] lookup(Receipt::check(canonical_form(x.spec_cbor()))->Ok_0, k)
            == canonical_option(lookup(x.field_list(), k)),
        forall|y: Receipt| #[trigger] y.agrees_with(Receipt::check(canonical_form(x.spec_cbor()))->Ok_0) ==> y.spec_validate() is Ok,
        forall|y: Receipt| #[trigger] y.agrees_with(Receipt::check(canonical_form(x.spec_cbor()))->Ok_0)
            ==> spec_encode(y.spec_cbor()) == spec_encode(x.spec_cbor()),
{
    let xc = x.spec_cbor();
    lemma_encode_then_decode(xc);
    x.lemma_field_list();
    lemma_check_canonical(xc, Receipt::rules());
    let cfs = Receipt::check(canonical_form(xc))->Ok_0;
    assert forall|y: Receipt| #[trigger] y.agrees_with(cfs) implies y.spec_validate() is Ok by {
        y.lemma_field_list();
        let yl = y.field_list();
        assert forall|k: u64| #[trigger] lookup(cfs, k) == lookup(yl, k) by {
            assert(lookup(cfs, k) == canonical_option(lookup(x.field_list(), k)));
            if k == 10 {
                assert(signed_value(signed_cbor(x.created_utc)) == x.created_utc);
            } else if k == 11 {
                assert(signed_value(signed_cbor(x.completed_utc)) == x.completed_utc);
            }
        }
        lemma_keys_from_lookups(cfs, yl);
        lemma_check_same_lookups(canonical_form(xc), y.spec_cbor(), Receipt::rules());
    }
    lemma_entry_values_encode(xc);
    assert forall|y: Receipt| #[trigger] y.agrees_with(cfs) implies spec_encode(y.spec_cbor()) == spec_encode(xc) by {
        let xe = xc->Entries_0;
        let ye = y.spec_cbor()->Entries_0;
        assert(lookup(cfs, 2) == canonical_option(lookup(x.field_list(), 2)));
        assert(lookup(cfs, 3) == canonical_option(lookup(x.field_list(), 3)));
        assert(lookup(cfs, 4) == canonical_option(lookup(x.field_list(), 4)));
        assert(lookup(cfs, 5) == canonical_option(lookup(x.field_list(), 5)));
        assert(lookup(cfs, 6) == canonical_option(lookup(x.field_list(), 6)));
        assert(lookup(cfs, 7) == canonical_option(lookup(x.field_list(), 7)));
        assert(lookup(cfs, 8) == canonical_option(lookup(x.field_list(), 8)));
        assert(lookup(cfs, 9) == canonical_option(lookup(x.field_list(), 9)));
        assert(lookup(cfs, 10) == canonical_option(lookup(x.field_list(), 10)));
        assert(lookup(cfs, 11) == canonical_option(lookup(x.field_list(), 11)));
        assert(lookup(cfs, 12) == canonical_option(lookup(x.field_list(), 12)));
        assert(xe[6].1 == Cbor::Array(models(x.authorization_evidence@)));
        lemma_raw_canonical(Cbor::Array(models(x.authorization_evidence@)));
        assert(xe[7].1 == x.prestate_evidence@);
        lemma_raw_canonical(x.prestate_evidence@);
        assert(xe[8].1 == x.execution_evidence@);
        lemma_raw_canonical(x.execution_evidence@);
        assert(signed_value(signed_cbor(x.created_utc)) == x.created_utc);
        assert(signed_value(signed_cbor(x.completed_utc)) == x.completed_utc);
        lemma_same_values_encode(xe, ye);
    }
}

impl EnrollmentStatement {
    /// The fields in the order `to_cbor` writes them.
    pub open spec fn field_list(self) -> FieldSeq {
        let base = Seq::empty()
            .push((1u64, Cbor::Unsigned(1)))
            .push((2u64, Cbor::Bytes(self.tenant_subject_digest@)))
            .push((3u64, Cbor::Bytes(self.device_id@)))
            .push((4u64, Cbor::Bytes(self.broker_pubkey@)))
            .push((5u64, Cbor::Array(models(self.credential_set@))))
            .push((6u64, Cbor::Bytes(self.pairing_nonce@)))
            .push((7u64, Cbor::Bytes(self.comparison_digest@)))
            .push((8u64, Cbor::Text(self.rp_id@)))
            .push((9u64, Cbor::Text(self.origin@)))
            .push((10u64, Cbor::Unsigned(self.next_generation)))
            .push((11u64, signed_cbor(self.expires_utc)));
        base
    }

    /// The map has exactly the field list as fields.
    pub proof fn lemma_field_list(self)
        ensures
            spec_fields(self.spec_cbor()) == Ok::<FieldSeq, SchemaError>(self.field_list()),
            lookup(self.field_list(), 1) == Some(Cbor::Unsigned(1)),
            lookup(self.field_list(), 2) == Some(Cbor::Bytes(self.tenant_subject_digest@)),
            lookup(self.field_list(), 3) == Some(Cbor::Bytes(self.device_id@)),
            lookup(self.field_list(), 4) == Some(Cbor::Bytes(self.broker_pubkey@)),
            lookup(self.field_list(), 5) == Some(Cbor::Array(models(self.credential_set@))),
            lookup(self.field_list(), 6) == Some(Cbor::Bytes(self.pairing_nonce@)),
            lookup(self.field_list(), 7) == Some(Cbor::Bytes(self.comparison_digest@)),
            lookup(self.field_list(), 8) == Some(Cbor::Text(self.rp_id@)),
            lookup(self.field_list(), 9) == Some(Cbor::Text(self.origin@)),
            lookup(self.field_list(), 10) == Some(Cbor::Unsigned(self.next_generation)),
            lookup(self.field_list(), 11) == Some(signed_cbor(self.expires_utc)),
            forall|k: u64| k < 1 || k > 11 ==> #[trigger] lookup(self.field_list(), k) is None,
    {
        let fl = self.field_list();
        let es = self.spec_cbor()->Entries_0;
        assert(es.len() == fl.len());
        assert forall|i: int| 0 <= i < fl.len() implies #[trigger] es[i] == (Cbor::Unsigned(fl[i].0), fl[i].1) by {
        }
        assert(distinct_keys(fl));
        lemma_fields_of_distinct(es, fl, fl.len());
        assert(fl.subrange(0, fl.len() as int) =~= fl);
        lemma_lookup_present(fl, 0);
        lemma_lookup_present(fl, 1);
        lemma_lookup_present(fl, 2);
        lemma_lookup_present(fl, 3);
        lemma_lookup_present(fl, 4);
        lemma_lookup_present(fl, 5);
        lemma_lookup_present(fl, 6);
        lemma_lookup_present(fl, 7);
        lemma_lookup_present(fl, 8);
        lemma_lookup_present(fl, 9);
        lemma_lookup_present(fl, 10);
        assert forall|k: u64| k < 1 || k > 11 implies #[trigger] lookup(fl, k) is None by {
            lemma_lookup_absent(fl, k);
        }
    }
}

/// The canonical bytes of a valid value decode to its canonical form, which
/// passes the schema with every field holding the value's own field in
/// canonical form; every value read from those fields is valid and
/// encodes to the same bytes.
#[verifier::rlimit(60)]
pub proof fn lemma_enrollment_statement_round_trip(x: EnrollmentStatement)
    requires
        x.spec_validate() is Ok,
        spec_encode(x.spec_cbor()) is Ok,
    ensures
        spec_decode(spec_encode(x.spec_cbor())->Ok_0) == Ok::<Cbor, DecodeError>(canonical_form(x.spec_cbor())),
        EnrollmentStatement::check(canonical_form(x.spec_cbor())) is Ok,
        forall|k: u64| #[trigger] lookup(EnrollmentStatement::check(canonical_form(x.spec_cbor()))->Ok_0, k)
            == canonical_option(lookup(x.field_list(), k)),
        forall|y: EnrollmentStatement| #[trigger] y.agrees_with(EnrollmentStatement::check(canonical_form(x.spec_cbor()))->Ok_0) ==> y.spec_validate() is Ok,
        forall|y: EnrollmentStatement| #[trigger] y.agrees_with(EnrollmentStatement::check(canonical_form(x.spec_cbor()))->Ok_0)
            ==> spec_encode(y.spec_cbor()) == spec_encode(x.spec_cbor()),
{
    let xc = x.spec_cbor();
    lemma_encode_then_decode(xc);
    x.lemma_field_list();
    lemma_check_canonical(xc, EnrollmentStatement::rules());
    let cfs = EnrollmentStatement::check(canonical_form(xc))->Ok_0;
    assert forall|y: EnrollmentStatement| #[trigger] y.agrees_with(cfs) implies y.spec_validate() is Ok by {
        y.lemma_field_list();
        let yl = y.field_list();
        assert forall|k: u64| #[trigger] lookup(cfs, k) == lookup(yl, k) by {
            assert(lookup(cfs, k) == canonical_option(lookup(x.field_list(), k)));
            if k == 11 {
                assert(signed_value(signed_cbor(x.expires_utc)) == x.expires_utc);
            }
        }
        lemma_keys_from_lookups(cfs, yl);
        lemma_check_same_lookups(canonical_form(xc), y.spec_cbor(), EnrollmentStatement::rules());
    }
    lemma_entry_values_encode(xc);
    assert forall|y: EnrollmentStatement| #[trigger] y.agrees_with(cfs) implies spec_encode(y.spec_cbor()) == spec_encode(xc) by {
        let xe = xc->Entries_0;
        let ye = y.spec_cbor()->Entries_0;
        assert(lookup(cfs, 2) == canonical_option(lookup(x.field_list(), 2)));
        assert(lookup(cfs, 3) == canonical_option(lookup(x.field_list(), 3)));
        assert(lookup(cfs, 4) == canonical_option(lookup(x.field_list(), 4)));
        assert(lookup(cfs, 5) == canonical_option(lookup(x.field_list(), 5)));
        assert(lookup(cfs, 6) == canonical_option(lookup(x.field_list(), 6)));
        assert(lookup(cfs, 7) == canonical_option(lookup(x.field_list(), 7)));
        assert(lookup(cfs, 8) == canonical_option(lookup(x.field_list(), 8)));
        assert(lookup(cfs, 9) == canonical_option(lookup(x.field_list(), 9)));
        assert(lookup(cfs, 10) == canonical_option(lookup(x.field_list(), 10)));
        assert(lookup(cfs, 11) == canonical_option(lookup(x.field_list(), 11)));
        assert(xe[4].1 == Cbor::Array(models(x.credential_set@)));
        lemma_raw_canonical(Cbor::Array(models(x.credential_set@)));
        assert(signed_value(signed_cbor(x.expires_utc)) == x.expires_utc);
        lemma_same_values_encode(xe, ye);
    }
}

impl ServiceKeyset {
    /// The fields in the order `to_cbor` writes them.
    pub open spec fn field_list(self) -> FieldSeq {
        let base = Seq::empty()
            .push((1u64, Cbor::Unsigned(1)))
            .push((2u64, Cbor::Unsigned(self.keyset_version)))
            .push((3u64, signed_cbor(self.issued_utc)))
            .push((4u64, Cbor::Array(models(self.keys@))))
            .push((5u64, Cbor::Bytes(self.root_kid@)))
            .push((6u64, signed_cbor(self.expires_utc)));
        base
    }

    /// The map has exactly the field list as fields.
    pub proof fn lemma_field_list(self)
        ensures
            spec_fields(self.spec_cbor()) == Ok::<FieldSeq, SchemaError>(self.field_list()),
            lookup(self.field_list(), 1) == Some(Cbor::Unsigned(1)),
            lookup(self.field_list(), 2) == Some(Cbor::Unsigned(self.keyset_version)),
            lookup(self.field_list(), 3) == Some(signed_cbor(self.issued_utc)),
            lookup(self.field_list(), 4) == Some(Cbor::Array(models(self.keys@))),
            lookup(self.field_list(), 5) == Some(Cbor::Bytes(self.root_kid@)),
            lookup(self.field_list(), 6) == Some(signed_cbor(self.expires_utc)),
            forall|k: u64| k < 1 || k > 6 ==> #[trigger] lookup(self.field_list(), k) is None,
    {
        let fl = self.field_list();
        let es = self.spec_cbor()->Entries_0;
        assert(es.len() == fl.len());
        assert forall|i: int| 0 <= i < fl.len() implies #[trigger] es[i] == (Cbor::Unsigned(fl[i].0), fl[i].1) by {
        }
        assert(distinct_keys(fl));
        lemma_fields_of_distinct(es, fl, fl.len());
        assert(fl.subrange(0, fl.len() as int) =~= fl);
        lemma_lookup_present(fl, 0);
        lemma_lookup_present(fl, 1);
        lemma_lookup_present(fl, 2);
        lemma_lookup_present(fl, 3);
        lemma_lookup_present(fl, 4);
        lemma_lookup_present(fl, 5);
        assert forall|k: u64| k < 1 || k > 6 implies #[trigger] lookup(fl, k) is None by {
            lemma_lookup_absent(fl, k);
        }
    }
}

/// The canonical bytes of a valid value decode to its canonical form, which
/// passes the schema with every field holding the value's own field in
/// canonical form; every value read from those fields is valid and
/// encodes to the same bytes.
#[verifier::rlimit(60)]
pub proof fn lemma_service_keyset_round_trip(x: ServiceKeyset)
    requires
        x.spec_validate() is Ok,
        spec_encode(x.spec_cbor()) is Ok,
    ensures
        spec_decode(spec_encode(x.spec_cbor())->Ok_0) == Ok::<Cbor, DecodeError>(canonical_form(x.spec_cbor())),
        ServiceKeyset::check(canonical_form(x.spec_cbor())) is Ok,
        forall|k: u64| #[trigger] lookup(ServiceKeyset::check(canonical_form(x.spec_cbor()))->Ok_0, k)
            == canonical_option(lookup(x.field_list(), k)),
        forall|y: ServiceKeyset| #[trigger] y.agrees_with(ServiceKeyset::check(canonical_form(x.spec_cbor()))->Ok_0) ==> y.spec_validate() is Ok,
        forall|y: ServiceKeyset| #[trigger] y.agrees_with(ServiceKeyset::check(canonical_form(x.spec_cbor()))->Ok_0)
            ==> spec_encode(y.spec_cbor()) == spec_encode(x.spec_cbor()),
{
    let xc = x.spec_cbor();
    lemma_encode_then_decode(xc);
    x.lemma_field_list();
    lemma_check_canonical(xc, ServiceKeyset::rules());
    let cfs = ServiceKeyset::check(canonical_form(xc))->Ok_0;
    assert forall|y: ServiceKeyset| #[trigger] y.agrees_with(cfs) implies y.spec_validate() is Ok by {
        y.lemma_field_list();
        let yl = y.field_list();
        assert forall|k: u64| #[trigger] lookup(cfs, k) == lookup(yl, k) by {
            assert(lookup(cfs, k) == canonical_option(lookup(x.field_list(), k)));
            if k == 3 {
                assert(signed_value(signed_cbor(x.issued_utc)) == x.issued_utc);
            } else if k == 6 {
                assert(signed_value(signed_cbor(x.expires_utc)) == x.expires_utc);
            }
        }
        lemma_keys_from_lookups(cfs, yl);
        lemma_check_same_lookups(canonical_form(xc), y.spec_cbor(), ServiceKeyset::rules());
    }
    lemma_entry_values_encode(xc);
    assert forall|y: ServiceKeyset| #[trigger] y.agrees_with(cfs) implies spec_encode(y.spec_cbor()) == spec_encode(xc) by {
        let xe = xc->Entries_0;
        let ye = y.spec_cbor()->Entries_0;
        assert(lookup(cfs, 2) == canonical_option(lookup(x.field_list(), 2)));
        assert(lookup(cfs, 3) == canonical_option(lookup(x.field_list(), 3)));
        assert(lookup(cfs, 4) == canonical_option(lookup(x.field_list(), 4)));
        assert(lookup(cfs, 5) == canonical_option(lookup(x.field_list(), 5)));
        assert(lookup(cfs, 6) == canonical_option(lookup(x.field_list(), 6)));
        assert(signed_value(signed_cbor(x.issued_utc)) == x.issued_utc);
        assert(xe[3].1 == Cbor::Array(models(x.keys@)));
        lemma_raw_canonical(Cbor::Array(models(x.keys@)));
        assert(signed_value(signed_cbor(x.expires_utc)) == x.expires_utc);
        lemma_same_values_encode(xe, ye);
    }
}

impl RevocationEvent {
    /// The fields in the order `to_cbor` writes them.
    pub open spec fn field_list(self) -> FieldSeq {
        let base = Seq::empty()
            .push((1u64, Cbor::Unsigned(1)))
            .push((2u64, Cbor::Bytes(self.device_id@)))
            .push((3u64, Cbor::Bytes(self.credential_id@)))
            .push((4u64, signed_cbor(self.cutoff_utc)))
            .push((5u64, Cbor::Bytes(self.service_event_id@)))
            .push((6u64, Cbor::Unsigned(self.generation_at_issue)))
            .push((7u64, Cbor::Unsigned(self.reason_code)));
        base
    }

    /// The map has exactly the field list as fields.
    pub proof fn lemma_field_list(self)
        ensures
            spec_fields(self.spec_cbor()) == Ok::<FieldSeq, SchemaError>(self.field_list()),
            lookup(self.field_list(), 1) == Some(Cbor::Unsigned(1)),
            lookup(self.field_list(), 2) == Some(Cbor::Bytes(self.device_id@)),
            lookup(self.field_list(), 3) == Some(Cbor::Bytes(self.credential_id@)),
            lookup(self.field_list(), 4) == Some(signed_cbor(self.cutoff_utc)),
            lookup(self.field_list(), 5) == Some(Cbor::Bytes(self.service_event_id@)),
            lookup(self.field_list(), 6) == Some(Cbor::Unsigned(self.generation_at_issue)),
            lookup(self.field_list(), 7) == Some(Cbor::Unsigned(self.reason_code)),
            forall|k: u64| k < 1 || k > 7 ==> #[trigger] lookup(self.field_list(), k) is None,
    {
        let fl = self.field_list();
        let es = self.spec_cbor()->Entries_0;
        assert(es.len() == fl.len());
        assert forall|i: int| 0 <= i < fl.len() implies #[trigger] es[i] == (Cbor::Unsigned(fl[i].0), fl[i].1) by {
        }
        assert(distinct_keys(fl));
        lemma_fields_of_distinct(es, fl, fl.len());
        assert(fl.subrange(0, fl.len() as int) =~= fl);
        lemma_lookup_present(fl, 0);
        lemma_lookup_present(fl, 1);
        lemma_lookup_present(fl, 2);
        lemma_lookup_present(fl, 3);
        lemma_lookup_present(fl, 4);
        lemma_lookup_present(fl, 5);
        lemma_lookup_present(fl, 6);
        assert forall|k: u64| k < 1 || k > 7 implies #[trigger] lookup(fl, k) is None by {
            lemma_lookup_absent(fl, k);
        }
    }
}

/// The canonical bytes of a valid value decode to its canonical form, which
/// passes the schema with every field holding the value's own field in
/// canonical form; every value read from those fields encodes to the
/// same bytes.
pub proof fn lemma_revocation_event_round_trip(x: RevocationEvent)
    requires
        x.spec_validate() is Ok,
        spec_encode(x.spec_cbor()) is Ok,
    ensures
        spec_decode(spec_encode(x.spec_cbor())->Ok_0) == Ok::<Cbor, DecodeError>(canonical_form(x.spec_cbor())),
        RevocationEvent::check(canonical_form(x.spec_cbor())) is Ok,
        forall|k: u64| #[trigger] lookup(RevocationEvent::check(canonical_form(x.spec_cbor()))->Ok_0, k)
            == canonical_option(lookup(x.field_list(), k)),
        forall|y: RevocationEvent| #[trigger] y.agrees_with(RevocationEvent::check(canonical_form(x.spec_cbor()))->Ok_0)
            ==> spec_encode(y.spec_cbor()) == spec_encode(x.spec_cbor()),
{
    let xc = x.spec_cbor();
    lemma_encode_then_decode(xc);
    x.lemma_field_list();
    lemma_check_canonical(xc, RevocationEvent::rules());
    let cfs = RevocationEvent::check(canonical_form(xc))->Ok_0;
    lemma_entry_values_encode(xc);
    assert forall|y: RevocationEvent| #[trigger] y.agrees_with(cfs) implies spec_encode(y.spec_cbor()) == spec_encode(xc) by {
        let xe = xc->Entries_0;
        let ye = y.spec_cbor()->Entries_0;
        assert(lookup(cfs, 2) == canonical_option(lookup(x.field_list(), 2)));
        assert(lookup(cfs, 3) == canonical_option(lookup(x.field_list(), 3)));
        assert(lookup(cfs, 4) == canonical_option(lookup(x.field_list(), 4)));
        assert(lookup(cfs, 5) == canonical_option(lookup(x.field_list(), 5)));
        assert(lookup(cfs, 6) == canonical_option(lookup(x.field_list(), 6)));
        assert(lookup(cfs, 7) == canonical_option(lookup(x.field_list(), 7)));
        assert(signed_value(signed_cbor(x.cutoff_utc)) == x.cutoff_utc);
        lemma_same_values_encode(xe, ye);
    }
}

/// Approval contexts that differ in their decision encode differently, so
/// their WebAuthn challenges are digests of different bytes under the same
/// label.
pub proof fn lemma_decision_changes_challenge_input(x: ApprovalContext, y: ApprovalContext)
    requires
        x.spec_validate() is Ok,
        y.spec_validate() is Ok,
        spec_encode(x.spec_cbor()) is Ok,
        spec_encode(y.spec_cbor()) is Ok,
        x.decision != y.decision,
    ensures
        spec_encode(x.spec_cbor()) != spec_encode(y.spec_cbor()),
        domain_label(Domain::WebAuthnChallenge) + spec_encode(x.spec_cbor())->Ok_0
            != domain_label(Domain::WebAuthnChallenge) + spec_encode(y.spec_cbor())->Ok_0,
{
    let l = domain_label(Domain::WebAuthnChallenge);
    let bx = spec_encode(x.spec_cbor())->Ok_0;
    let by = spec_encode(y.spec_cbor())->Ok_0;
    assert(bx != by) by {
        if bx == by {
            let xc = x.spec_cbor();
            let yc = y.spec_cbor();
            lemma_encode_then_decode(xc);
            lemma_encode_then_decode(yc);
            assert(canonical_form(xc) == canonical_form(yc));
            x.lemma_field_list();
            y.lemma_field_list();
            lemma_check_canonical(xc, ApprovalContext::rules());
            lemma_check_canonical(yc, ApprovalContext::rules());
            let cfs = check_message(canonical_form(xc), ApprovalContext::rules())->Ok_0;
            assert(lookup(cfs, 10) == canonical_option(lookup(check_message(xc, ApprovalContext::rules())->Ok_0, 10)));
            assert(lookup(cfs, 10) == canonical_option(lookup(check_message(yc, ApprovalContext::rules())->Ok_0, 10)));
        }
    }
    if l + bx == l + by {
        assert(bx =~= (l + bx).subrange(l.len() as int, (l + bx).len() as int));
        assert(by =~= (l + by).subrange(l.len() as int, (l + by).len() as int));
    }
}

impl OperationInput {
    /// An input read from nested fields that satisfy its rules encodes to the
    /// nested map it was read from.
    pub proof fn lemma_from_fields_encodes(c: Cbor, y: OperationInput)
        requires
            spec_fields(c) is Ok,
            rules_hold(spec_fields(c)->Ok_0, operation_input_rules()),
            spec_encode_raw(c) is Ok,
            y.agrees_with(spec_fields(c)->Ok_0),
        ensures
            spec_encode_raw(y.spec_cbor()) == spec_encode_raw(c),
    {
        let fs = spec_fields(c)->Ok_0;
        let rules = operation_input_rules();
        y.lemma_field_list();
        let yl = y.field_list();
        assert forall|j: int| 0 <= j < rules.len() implies 1 <= #[trigger] rules[j].key <= 1 by {}
        assert forall|k: u64| #[trigger] same_encoding(lookup(fs, k), lookup(yl, k)) by {
            if k != 1 {
                lemma_outside_rules_absent(fs, rules, 1, 1, k);
                assert forall|i: int| 0 <= i < yl.len() implies yl[i].0 != k by {}
                lemma_lookup_absent(yl, k);
            }
        }
        lemma_same_fields_encode(c, y.spec_cbor());
    }
}

impl Request {
    /// A value read from fields that satisfy the rules encodes to the map it
    /// was read from.
    #[verifier::rlimit(40)]
    pub proof fn lemma_from_fields_encodes(c: Cbor, y: Request)
        requires
            spec_fields(c) is Ok,
            rules_hold(spec_fields(c)->Ok_0, Request::rules()),
            spec_encode_raw(c) is Ok,
            y.agrees_with(spec_fields(c)->Ok_0),
        ensures
            spec_encode_raw(y.spec_cbor()) == spec_encode_raw(c),
            spec_encode(y.spec_cbor()) == spec_encode(c),
    {
        let fs = spec_fields(c)->Ok_0;
        let rules = Request::rules();
        y.lemma_field_list();
        let yl = y.field_list();
        assert forall|j: int| 0 <= j < rules.len() implies 1 <= #[trigger] rules[j].key <= 18 by {}
        assert forall|k: u64| #[trigger] same_encoding(lookup(fs, k), lookup(yl, k)) by {
            if k == 1 {
                assert(rule_holds(fs, rules[0]));
            } else if k == 2 {
            } else if k == 3 {
            } else if k == 4 {
            } else if k == 5 {
            } else if k == 6 {
                assert(rule_holds(fs, rules[5]));
                lemma_found_value_encodes(c, 6);
                lemma_signed_model(6, lookup(fs, 6)->Some_0, y.created_utc);
            } else if k == 7 {
                assert(rule_holds(fs, rules[6]));
                lemma_found_value_encodes(c, 7);
                lemma_signed_model(7, lookup(fs, 7)->Some_0, y.expires_utc);
            } else if k == 8 {
            } else if k == 9 {
            } else if k == 10 {
            } else if k == 11 {
            } else if k == 12 {
            } else if k == 13 {
                assert(rule_holds(fs, rules[12]));
                lemma_found_value_encodes(c, 13);
                assert forall|j: int| 0 <= j < operation_input_rules().len()
                    implies !nested_kind(#[trigger] operation_input_rules()[j].kind) by {}
                lemma_nested_rules_hold(lookup(fs, 13)->Some_0, operation_input_rules());
                OperationInput::lemma_from_fields_encodes(lookup(fs, 13)->Some_0, y.operation_input);
            } else if k == 14 {
            } else if k == 15 {
            } else if k == 16 {
            } else if k == 17 {
            } else if k == 18 {
            } else {
                lemma_outside_rules_absent(fs, rules, 1, 18, k);
            }
        }
        lemma_same_fields_encode(c, y.spec_cbor());
    }
}

/// Bytes accepted as a Request re-encode exactly: the value read from them
/// encodes to the same bytes.
pub proof fn lemma_request_accepted_bytes(input: Seq<u8>, y: Request)
    requires
        spec_decode(input) is Ok,
        Request::check(spec_decode(input)->Ok_0) is Ok,
        y.agrees_with(Request::check(spec_decode(input)->Ok_0)->Ok_0),
    ensures
        spec_encode(y.spec_cbor()) == Ok::<Seq<u8>, EncodeError>(input),
{
    let c = spec_decode(input)->Ok_0;
    lemma_decode_then_encode(input);
    lemma_checked_rules_hold(c, Request::rules());
    Request::lemma_from_fields_encodes(c, y);
}

impl ApprovalContext {
    /// A value read from fields that satisfy the rules encodes to the map it
    /// was read from.
    #[verifier::rlimit(40)]
    pub proof fn lemma_from_fields_encodes(c: Cbor, y: ApprovalContext)
        requires
            spec_fields(c) is Ok,
            rules_hold(spec_fields(c)->Ok_0, ApprovalContext::rules()),
            spec_encode_raw(c) is Ok,
            y.agrees_with(spec_fields(c)->Ok_0),
        ensures
            spec_encode_raw(y.spec_cbor()) == spec_encode_raw(c),
            spec_encode(y.spec_cbor()) == spec_encode(c),
    {
        let fs = spec_fields(c)->Ok_0;
        let rules = ApprovalContext::rules();
        y.lemma_field_list();
        let yl = y.field_list();
        assert forall|j: int| 0 <= j < rules.len() implies 1 <= #[trigger] rules[j].key <= 11 by {}
        assert forall|k: u64| #[trigger] same_encoding(lookup(fs, k), lookup(yl, k)) by {
            if k == 1 {
                assert(rule_holds(fs, rules[0]));
            } else if k == 2 {
            } else if k == 3 {
            } else if k == 4 {
            } else if k == 5 {
            } else if k == 6 {
            } else if k == 7 {
            } else if k == 8 {
            } else if k == 9 {
            } else if k == 10 {
            } else if k == 11 {
                assert(rule_holds(fs, rules[10]));
                lemma_found_value_encodes(c, 11);
                lemma_signed_model(11, lookup(fs, 11)->Some_0, y.expires_utc);
            } else {
                lemma_outside_rules_absent(fs, rules, 1, 11, k);
            }
        }
        lemma_same_fields_encode(c, y.spec_cbor());
    }
}

/// Bytes accepted as a ApprovalContext re-encode exactly: the value read from them
/// encodes to the same bytes.
pub proof fn lemma_approval_context_accepted_bytes(input: Seq<u8>, y: ApprovalContext)
    requires
        spec_decode(input) is Ok,
        ApprovalContext::check(spec_decode(input)->Ok_0) is Ok,
        y.agrees_with(ApprovalContext::check(spec_decode(input)->Ok_0)->Ok_0),
    ensures
        spec_encode(y.spec_cbor()) == Ok::<Seq<u8>, EncodeError>(input),
{
    let c = spec_decode(input)->Ok_0;
    lemma_decode_then_encode(input);
    lemma_checked_rules_hold(c, ApprovalContext::rules());
    ApprovalContext::lemma_from_fields_encodes(c, y);
}

impl DecisionSubmission {
    /// A value read from fields that satisfy the rules encodes to the map it
    /// was read from.
    #[verifier::rlimit(40)]
    pub proof fn lemma_from_fields_encodes(c: Cbor, y: DecisionSubmission)
        requires
            spec_fields(c) is Ok,
            rules_hold(spec_fields(c)->Ok_0, DecisionSubmission::rules()),
            spec_encode_raw(c) is Ok,
            y.agrees_with(spec_fields(c)->Ok_0),
        ensures
            spec_encode_raw(y.spec_cbor()) == spec_encode_raw(c),
            spec_encode(y.spec_cbor()) == spec_encode(c),
    {
        let fs = spec_fields(c)->Ok_0;
        let rules = DecisionSubmission::rules();
        y.lemma_field_list();
        let yl = y.field_list();
        assert forall|j: int| 0 <= j < rules.len() implies 1 <= #[trigger] rules[j].key <= 7 by {}
        assert forall|k: u64| #[trigger] same_encoding(lookup(fs, k), lookup(yl, k)) by {
            if k == 1 {
                assert(rule_holds(fs, rules[0]));
            } else if k == 2 {
                assert(rule_holds(fs, rules[1]));
                lemma_found_value_encodes(c, 2);
                assert(approval_context_rules() =~= ApprovalContext::rules());
                assert forall|j: int| 0 <= j < approval_context_rules().len()
                    implies !nested_kind(#[trigger] approval_context_rules()[j].kind) by {}
                lemma_nested_rules_hold(lookup(fs, 2)->Some_0, approval_context_rules());
                ApprovalContext::lemma_from_fields_encodes(lookup(fs, 2)->Some_0, y.approval_context);
            } else if k == 3 {
            } else if k == 4 {
            } else if k == 5 {
            } else if k == 6 {
            } else if k == 7 {
            } else {
                lemma_outside_rules_absent(fs, rules, 1, 7, k);
            }
        }
        lemma_same_fields_encode(c, y.spec_cbor());
    }
}

/// Bytes accepted as a DecisionSubmission re-encode exactly: the value read from them
/// encodes to the same bytes.
pub proof fn lemma_decision_submission_accepted_bytes(input: Seq<u8>, y: DecisionSubmission)
    requires
        spec_decode(input) is Ok,
        DecisionSubmission::check(spec_decode(input)->Ok_0) is Ok,
        y.agrees_with(DecisionSubmission::check(spec_decode(input)->Ok_0)->Ok_0),
    ensures
        spec_encode(y.spec_cbor()) == Ok::<Seq<u8>, EncodeError>(input),
{
    let c = spec_decode(input)->Ok_0;
    lemma_decode_then_encode(input);
    lemma_checked_rules_hold(c, DecisionSubmission::rules());
    DecisionSubmission::lemma_from_fields_encodes(c, y);
}

impl PlanManifest {
    /// A value read from fields that satisfy the rules encodes to the map it
    /// was read from.
    #[verifier::rlimit(40)]
    pub proof fn lemma_from_fields_encodes(c: Cbor, y: PlanManifest)
        requires
            spec_fields(c) is Ok,
            rules_hold(spec_fields(c)->Ok_0, PlanManifest::rules()),
            spec_encode_raw(c) is Ok,
            y.agrees_with(spec_fields(c)->Ok_0),
        ensures
            spec_encode_raw(y.spec_cbor()) == spec_encode_raw(c),
            spec_encode(y.spec_cbor()) == spec_encode(c),
    {
        let fs = spec_fields(c)->Ok_0;
        let rules = PlanManifest::rules();
        y.lemma_field_list();
        let yl = y.field_list();
        assert forall|j: int| 0 <= j < rules.len() implies 1 <= #[trigger] rules[j].key <= 8 by {}
        assert forall|k: u64| #[trigger] same_encoding(lookup(fs, k), lookup(yl, k)) by {
            if k == 1 {
                assert(rule_holds(fs, rules[0]));
            } else if k == 2 {
            } else if k == 3 {
            } else if k == 4 {
            } else if k == 5 {
            } else if k == 6 {
                assert(rule_holds(fs, rules[5]));
                lemma_found_value_encodes(c, 6);
                lemma_signed_model(6, lookup(fs, 6)->Some_0, y.created_utc);
            } else if k == 7 {
            } else if k == 8 {
            } else {
                lemma_outside_rules_absent(fs, rules, 1, 8, k);
            }
        }
        lemma_same_fields_encode(c, y.spec_cbor());
    }
}

/// Bytes accepted as a PlanManifest re-encode exactly: the value read from them
/// encodes to the same bytes.
pub proof fn lemma_plan_manifest_accepted_bytes(input: Seq<u8>, y: PlanManifest)
    requires
        spec_decode(input) is Ok,
        PlanManifest::check(spec_decode(input)->Ok_0) is Ok,
        y.agrees_with(PlanManifest::check(spec_decode(input)->Ok_0)->Ok_0),
    ensures
        spec_encode(y.spec_cbor()) == Ok::<Seq<u8>, EncodeError>(input),
{
    let c = spec_decode(input)->Ok_0;
    lemma_decode_then_encode(input);
    lemma_checked_rules_hold(c, PlanManifest::rules());
    PlanManifest::lemma_from_fields_encodes(c, y);
}

impl LifecycleEvent {
    /// A value read from fields that satisfy the rules encodes to the map it
    /// was read from.
    #[verifier::rlimit(40)]
    pub proof fn lemma_from_fields_encodes(c: Cbor, y: LifecycleEvent)
        requires
            spec_fields(c) is Ok,
            rules_hold(spec_fields(c)->Ok_0, LifecycleEvent::rules()),
            spec_encode_raw(c) is Ok,
            y.agrees_with(spec_fields(c)->Ok_0),
        ensures
            spec_encode_raw(y.spec_cbor()) == spec_encode_raw(c),
            spec_encode(y.spec_cbor()) == spec_encode(c),
    {
        let fs = spec_fields(c)->Ok_0;
        let rules = LifecycleEvent::rules();
        y.lemma_field_list();
        let yl = y.field_list();
        assert forall|j: int| 0 <= j < rules.len() implies 1 <= #[trigger] rules[j].key <= 10 by {}
        assert forall|k: u64| #[trigger] same_encoding(lookup(fs, k), lookup(yl, k)) by {
            if k == 1 {
                assert(rule_holds(fs, rules[0]));
            } else if k == 2 {
            } else if k == 3 {
            } else if k == 4 {
            } else if k == 5 {
            } else if k == 6 {
            } else if k == 7 {
            } else if k == 8 {
                assert(rule_holds(fs, rules[7]));
                lemma_found_value_encodes(c, 8);
                lemma_signed_model(8, lookup(fs, 8)->Some_0, y.occurred_utc);
            } else if k == 9 {
            } else if k == 10 {
            } else {
                lemma_outside_rules_absent(fs, rules, 1, 10, k);
            }
        }
        lemma_same_fields_encode(c, y.spec_cbor());
    }
}

/// Bytes accepted as a LifecycleEvent re-encode exactly: the value read from them
/// encodes to the same bytes.
pub proof fn lemma_lifecycle_event_accepted_bytes(input: Seq<u8>, y: LifecycleEvent)
    requires
        spec_decode(input) is Ok,
        LifecycleEvent::check(spec_decode(input)->Ok_0) is Ok,
        y.agrees_with(LifecycleEvent::check(spec_decode(input)->Ok_0)->Ok_0),
    ensures
        spec_encode(y.spec_cbor()) == Ok::<Seq<u8>, EncodeError>(input),
{
    let c = spec_decode(input)->Ok_0;
    lemma_decode_then_encode(input);
    lemma_checked_rules_hold(c, LifecycleEvent::rules());
    LifecycleEvent::lemma_from_fields_encodes(c, y);
}

impl Receipt {
    /// A value read from fields that satisfy the rules encodes to the map it
    /// was read from.
    #[verifier::rlimit(40)]
    pub proof fn lemma_from_fields_encodes(c: Cbor, y: Receipt)
        requires
            spec_fields(c) is Ok,
            rules_hold(spec_fields(c)->Ok_0, Receipt::rules()),
            spec_encode_raw(c) is Ok,
            y.agrees_with(spec_fields(c)->Ok_0),
        ensures
            spec_encode_raw(y.spec_cbor()) == spec_encode_raw(c),
            spec_encode(y.spec_cbor()) == spec_encode(c),
    {
        let fs = spec_fields(c)->Ok_0;
        let rules = Receipt::rules();
        y.lemma_field_list();
        let yl = y.field_list();
        assert forall|j: int| 0 <= j < rules.len() implies 1 <= #[trigger] rules[j].key <= 12 by {}
        assert forall|k: u64| #[trigger] same_encoding(lookup(fs, k), lookup(yl, k)) by {
            if k == 1 {
                assert(rule_holds(fs, rules[0]));
            } else if k == 2 {
            } else if k == 3 {
            } else if k == 4 {
            } else if k == 5 {
            } else if k == 6 {
            } else if k == 7 {
            } else if k == 8 {
            } else if k == 9 {
            } else if k == 10 {
                assert(rule_holds(fs, rules[9]));
                lemma_found_value_encodes(c, 10);
                lemma_signed_model(10, lookup(fs, 10)->Some_0, y.created_utc);
            } else if k == 11 {
                assert(rule_holds(fs, rules[10]));
                lemma_found_value_encodes(c, 11);
                lemma_signed_model(11, lookup(fs, 11)->Some_0, y.completed_utc);
            } else if k == 12 {
            } else {
                lemma_outside_rules_absent(fs, rules, 1, 12, k);
            }
        }
        lemma_same_fields_encode(c, y.spec_cbor());
    }
}

/// Bytes accepted as a Receipt re-encode exactly: the value read from them
/// encodes to the same bytes.
pub proof fn lemma_receipt_accepted_bytes(input: Seq<u8>, y: Receipt)
    requires
        spec_decode(input) is Ok,
        Receipt::check(spec_decode(input)->Ok_0) is Ok,
        y.agrees_with(Receipt::check(spec_decode(input)->Ok_0)->Ok_0),
    ensures
        spec_encode(y.spec_cbor()) == Ok::<Seq<u8>, EncodeError>(input),
{
    let c = spec_decode(input)->Ok_0;
    lemma_decode_then_encode(input);
    lemma_checked_rules_hold(c, Receipt::rules());
    Receipt::lemma_from_fields_encodes(c, y);
}

impl EnrollmentStatement {
    /// A value read from fields that satisfy the rules encodes to the map it
    /// was read from.
    #[verifier::rlimit(40)]
    pub proof fn lemma_from_fields_encodes(c: Cbor, y: EnrollmentStatement)
        requires
            spec_fields(c) is Ok,
            rules_hold(spec_fields(c)->Ok_0, EnrollmentStatement::rules()),
            spec_encode_raw(c) is Ok,
            y.agrees_with(spec_fields(c)->Ok_0),
        ensures
            spec_encode_raw(y.spec_cbor()) == spec_encode_raw(c),
            spec_encode(y.spec_cbor()) == spec_encode(c),
    {
        let fs = spec_fields(c)->Ok_0;
        let rules = EnrollmentStatement::rules();
        y.lemma_field_list();
        let yl = y.field_list();
        assert forall|j: int| 0 <= j < rules.len() implies 1 <= #[trigger] rules[j].key <= 11 by {}
        assert forall|k: u64| #[trigger] same_encoding(lookup(fs, k), lookup(yl, k)) by {
            if k == 1 {
                assert(rule_holds(fs, rules[0]));
            } else if k == 2 {
            } else if k == 3 {
            } else if k == 4 {
            } else if k == 5 {
            } else if k == 6 {
            } else if k == 7 {
            } else if k == 8 {
            } else if k == 9 {
            } else if k == 10 {
            } else if k == 11 {
                assert(rule_holds(fs, rules[10]));
                lemma_found_value_encodes(c, 11);
                lemma_signed_model(11, lookup(fs, 11)->Some_0, y.expires_utc);
            } else {
                lemma_outside_rules_absent(fs, rules, 1, 11, k);
            }
        }
        lemma_same_fields_encode(c, y.spec_cbor());
    }
}

/// Bytes accepted as a EnrollmentStatement re-encode exactly: the value read from them
/// encodes to the same bytes.
pub proof fn lemma_enrollment_statement_accepted_bytes(input: Seq<u8>, y: EnrollmentStatement)
    requires
        spec_decode(input) is Ok,
        EnrollmentStatement::check(spec_decode(input)->Ok_0) is Ok,
        y.agrees_with(EnrollmentStatement::check(spec_decode(input)->Ok_0)->Ok_0),
    ensures
        spec_encode(y.spec_cbor()) == Ok::<Seq<u8>, EncodeError>(input),
{
    let c = spec_decode(input)->Ok_0;
    lemma_decode_then_encode(input);
    lemma_checked_rules_hold(c, EnrollmentStatement::rules());
    EnrollmentStatement::lemma_from_fields_encodes(c, y);
}

impl ServiceKeyset {
    /// A value read from fields that satisfy the rules encodes to the map it
    /// was read from.
    #[verifier::rlimit(40)]
    pub proof fn lemma_from_fields_encodes(c: Cbor, y: ServiceKeyset)
        requires
            spec_fields(c) is Ok,
            rules_hold(spec_fields(c)->Ok_0, ServiceKeyset::rules()),
            spec_encode_raw(c) is Ok,
            y.agrees_with(spec_fields(c)->Ok_0),
        ensures
            spec_encode_raw(y.spec_cbor()) == spec_encode_raw(c),
            spec_encode(y.spec_cbor()) == spec_encode(c),
    {
        let fs = spec_fields(c)->Ok_0;
        let rules = ServiceKeyset::rules();
        y.lemma_field_list();
        let yl = y.field_list();
        assert forall|j: int| 0 <= j < rules.len() implies 1 <= #[trigger] rules[j].key <= 6 by {}
        assert forall|k: u64| #[trigger] same_encoding(lookup(fs, k), lookup(yl, k)) by {
            if k == 1 {
                assert(rule_holds(fs, rules[0]));
            } else if k == 2 {
            } else if k == 3 {
                assert(rule_holds(fs, rules[2]));
                lemma_found_value_encodes(c, 3);
                lemma_signed_model(3, lookup(fs, 3)->Some_0, y.issued_utc);
            } else if k == 4 {
            } else if k == 5 {
            } else if k == 6 {
                assert(rule_holds(fs, rules[5]));
                lemma_found_value_encodes(c, 6);
                lemma_signed_model(6, lookup(fs, 6)->Some_0, y.expires_utc);
            } else {
                lemma_outside_rules_absent(fs, rules, 1, 6, k);
            }
        }
        lemma_same_fields_encode(c, y.spec_cbor());
    }
}

/// Bytes accepted as a ServiceKeyset re-encode exactly: the value read from them
/// encodes to the same bytes.
pub proof fn lemma_service_keyset_accepted_bytes(input: Seq<u8>, y: ServiceKeyset)
    requires
        spec_decode(input) is Ok,
        ServiceKeyset::check(spec_decode(input)->Ok_0) is Ok,
        y.agrees_with(ServiceKeyset::check(spec_decode(input)->Ok_0)->Ok_0),
    ensures
        spec_encode(y.spec_cbor()) == Ok::<Seq<u8>, EncodeError>(input),
{
    let c = spec_decode(input)->Ok_0;
    lemma_decode_then_encode(input);
    lemma_checked_rules_hold(c, ServiceKeyset::rules());
    ServiceKeyset::lemma_from_fields_encodes(c, y);
}

impl RevocationEvent {
    /// A value read from fields that satisfy the rules encodes to the map it
    /// was read from.
    #[verifier::rlimit(40)]
    pub proof fn lemma_from_fields_encodes(c: Cbor, y: RevocationEvent)
        requires
            spec_fields(c) is Ok,
            rules_hold(spec_fields(c)->Ok_0, RevocationEvent::rules()),
            spec_encode_raw(c) is Ok,
            y.agrees_with(spec_fields(c)->Ok_0),
        ensures
            spec_encode_raw(y.spec_cbor()) == spec_encode_raw(c),
            spec_encode(y.spec_cbor()) == spec_encode(c),
    {
        let fs = spec_fields(c)->Ok_0;
        let rules = RevocationEvent::rules();
        y.lemma_field_list();
        let yl = y.field_list();
        assert forall|j: int| 0 <= j < rules.len() implies 1 <= #[trigger] rules[j].key <= 7 by {}
        assert forall|k: u64| #[trigger] same_encoding(lookup(fs, k), lookup(yl, k)) by {
            if k == 1 {
                assert(rule_holds(fs, rules[0]));
            } else if k == 2 {
            } else if k == 3 {
            } else if k == 4 {
                assert(rule_holds(fs, rules[3]));
                lemma_found_value_encodes(c, 4);
                lemma_signed_model(4, lookup(fs, 4)->Some_0, y.cutoff_utc);
            } else if k == 5 {
            } else if k == 6 {
            } else if k == 7 {
            } else {
                lemma_outside_rules_absent(fs, rules, 1, 7, k);
            }
        }
        lemma_same_fields_encode(c, y.spec_cbor());
    }
}

/// Bytes accepted as a RevocationEvent re-encode exactly: the value read from them
/// encodes to the same bytes.
pub proof fn lemma_revocation_event_accepted_bytes(input: Seq<u8>, y: RevocationEvent)
    requires
        spec_decode(input) is Ok,
        RevocationEvent::check(spec_decode(input)->Ok_0) is Ok,
        y.agrees_with(RevocationEvent::check(spec_decode(input)->Ok_0)->Ok_0),
    ensures
        spec_encode(y.spec_cbor()) == Ok::<Seq<u8>, EncodeError>(input),
{
    let c = spec_decode(input)->Ok_0;
    lemma_decode_then_encode(input);
    lemma_checked_rules_hold(c, RevocationEvent::rules());
    RevocationEvent::lemma_from_fields_encodes(c, y);
}

impl OperationInput {
    /// A nested input map that satisfies the input rules is exactly the map
    /// of the input read from it.
    pub proof fn lemma_nested_map_is_own(c: Cbor, y: OperationInput)
        requires
            spec_fields(c) is Ok,
            rules_hold(spec_fields(c)->Ok_0, operation_input_rules()),
            y.agrees_with(spec_fields(c)->Ok_0),
        ensures
            c == y.spec_cbor(),
    {
        let es = c->Entries_0;
        let fs = spec_fields(c)->Ok_0;
        lemma_fields_of_shape(es, es.len());
        let known = rule_keys(operation_input_rules());
        assert(known =~= seq![1u64]);
        assert forall|i: int| 0 <= i < fs.len() implies fs[i].0 == 1 by {
            if !known.contains(fs[i].0) {
                assert(exists|i: int| 0 <= i < fs.len() && !known.contains(#[trigger] fs[i].0));
            }
        }
        if fs.len() == 0 {
            assert(lookup(fs, 1) is None);
        }
        if fs.len() > 1 {
            assert(fs[0].0 == fs[1].0);
        }
        assert(fs.len() == 1);
        lemma_lookup_present(fs, 0);
        assert(es =~= y.spec_cbor()->Entries_0);
    }
}

/// A request read from bytes accepted as a request passes validation again
/// and encodes to exactly those bytes, so its canonical bytes are its input.
#[verifier::rlimit(60)]
pub proof fn lemma_request_decoded_re_encodes(input: Seq<u8>, y: Request)
    requires
        spec_decode(input) is Ok,
        Request::check(spec_decode(input)->Ok_0) is Ok,
        y.agrees_with(Request::check(spec_decode(input)->Ok_0)->Ok_0),
    ensures
        y.spec_validate() is Ok,
        spec_encode(y.spec_cbor()) == Ok::<Seq<u8>, EncodeError>(input),
{
    lemma_request_accepted_bytes(input, y);
    let c = spec_decode(input)->Ok_0;
    let rules = Request::rules();
    lemma_decode_then_encode(input);
    lemma_checked_rules_hold(c, rules);
    let fs = spec_fields(c)->Ok_0;
    y.lemma_field_list();
    let yl = y.field_list();
    assert forall|j: int| 0 <= j < rules.len() implies 1 <= #[trigger] rules[j].key <= 18 by {}
    assert forall|k: u64| #[trigger] lookup(fs, k) == lookup(yl, k) by {
        if k == 1 {
            assert(rule_holds(fs, rules[0]));
        } else if k == 6 {
            assert(rule_holds(fs, rules[5]));
            lemma_found_value_encodes(c, 6);
            lemma_signed_model(6, lookup(fs, 6)->Some_0, y.created_utc);
        } else if k == 7 {
            assert(rule_holds(fs, rules[6]));
            lemma_found_value_encodes(c, 7);
            lemma_signed_model(7, lookup(fs, 7)->Some_0, y.expires_utc);
        } else if k == 13 {
            assert(rule_holds(fs, rules[12]));
            assert forall|j: int| 0 <= j < operation_input_rules().len()
                implies !nested_kind(#[trigger] operation_input_rules()[j].kind) by {}
            lemma_nested_rules_hold(lookup(fs, 13)->Some_0, operation_input_rules());
            OperationInput::lemma_nested_map_is_own(lookup(fs, 13)->Some_0, y.operation_input);
        } else if k < 1 || k > 18 {
            lemma_outside_rules_absent(fs, rules, 1, 18, k);
        }
    }
    lemma_keys_from_lookups(fs, yl);
    lemma_check_same_lookups(c, y.spec_cbor(), rules);
}

/// Decoding the canonical bytes of a valid request whose frozen plan is in
/// canonical form gives back a request with every field of the original.
#[verifier::rlimit(60)]
pub proof fn lemma_request_decodes_to_itself(x: Request, y: Request)
    requires
        x.spec_validate() is Ok,
        spec_encode(x.spec_cbor()) is Ok,
        canonical_form(x.frozen_plan@) == x.frozen_plan@,
        y.agrees_with(Request::check(canonical_form(x.spec_cbor()))->Ok_0),
    ensures
        spec_decode(spec_encode(x.spec_cbor())->Ok_0) == Ok::<Cbor, DecodeError>(canonical_form(x.spec_cbor())),
        y.request_id@ == x.request_id@,
        y.device_id@ == x.device_id@,
        y.broker_epoch == x.broker_epoch,
        y.generation == x.generation,
        y.created_utc == x.created_utc,
        y.expires_utc == x.expires_utc,
        y.boot_id@ == x.boot_id@,
        y.deadline_mono_ns == x.deadline_mono_ns,
        y.nonce@ == x.nonce@,
        y.requester_uid == x.requester_uid,
        y.operation == x.operation,
        y.operation_input.package_name@ == x.operation_input.package_name@,
        y.policy_id@ == x.policy_id@,
        y.policy_digest@ == x.policy_digest@,
        y.plan_digest@ == x.plan_digest@,
        y.frozen_plan@ == x.frozen_plan@,
        optional_text(y.agent_note) == optional_text(x.agent_note),
{
    lemma_request_round_trip(x);
    let xc = x.spec_cbor();
    let cfs = Request::check(canonical_form(xc))->Ok_0;
    x.lemma_field_list();
    assert(lookup(cfs, 2) == canonical_option(lookup(x.field_list(), 2)));
    assert(lookup(cfs, 3) == canonical_option(lookup(x.field_list(), 3)));
    assert(lookup(cfs, 4) == canonical_option(lookup(x.field_list(), 4)));
    assert(lookup(cfs, 5) == canonical_option(lookup(x.field_list(), 5)));
    assert(lookup(cfs, 6) == canonical_option(lookup(x.field_list(), 6)));
    assert(lookup(cfs, 7) == canonical_option(lookup(x.field_list(), 7)));
    assert(lookup(cfs, 8) == canonical_option(lookup(x.field_list(), 8)));
    assert(lookup(cfs, 9) == canonical_option(lookup(x.field_list(), 9)));
    assert(lookup(cfs, 10) == canonical_option(lookup(x.field_list(), 10)));
    assert(lookup(cfs, 11) == canonical_option(lookup(x.field_list(), 11)));
    assert(lookup(cfs, 12) == canonical_option(lookup(x.field_list(), 12)));
    assert(lookup(cfs, 13) == canonical_option(lookup(x.field_list(), 13)));
    assert(lookup(cfs, 14) == canonical_option(lookup(x.field_list(), 14)));
    assert(lookup(cfs, 15) == canonical_option(lookup(x.field_list(), 15)));
    assert(lookup(cfs, 16) == canonical_option(lookup(x.field_list(), 16)));
    assert(lookup(cfs, 17) == canonical_option(lookup(x.field_list(), 17)));
    assert(lookup(cfs, 18) == canonical_option(lookup(x.field_list(), 18)));
    assert(signed_value(signed_cbor(x.created_utc)) == x.created_utc);
    assert(signed_value(signed_cbor(x.expires_utc)) == x.expires_utc);
    lemma_entry_values_encode(xc);
    assert(xc->Entries_0[12].1 == x.operation_input.spec_cbor());
    x.operation_input.lemma_field_list();
    lemma_canonical_fields(x.operation_input.spec_cbor());
    let nf = spec_fields(canonical_form(x.operation_input.spec_cbor()))->Ok_0;
    assert(lookup(nf, 1) == canonical_option(lookup(x.operation_input.field_list(), 1)));
}

} // verus!
