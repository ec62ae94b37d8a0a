//! Credential issuance.
//!
//! A credential binds a subject identity to attributes under the
//! project-membership schema. The issuer assembles the signed part: every
//! supplied attribute in order, then the reserved `project_id` attribute.
//! Producing the signature is the host's concern, through
//! [`CredentialSigner`].

use vstd::prelude::*;
use crate::codec::{CredDataView, CredentialData};
use crate::types::{Attr, IdentityId, attrs_of, clone_attrs, clone_bytes};

verus! {

/// Schema identifier of project-membership credentials.
pub const PROJECT_MEMBER_SCHEMA: u64 = 1;

/// The byte string `project_id`, the reserved credential attribute name.
pub open spec fn spec_project_id_attr_name() -> Seq<u8> {
    seq![112u8, 114u8, 111u8, 106u8, 101u8, 99u8, 116u8, 95u8, 105u8, 100u8]
}

pub fn project_id_attr_name() -> (r: Vec<u8>)
    ensures
        r@ == spec_project_id_attr_name(),
{
    let mut v: Vec<u8> = Vec::new();
    v.push(112);
    v.push(114);
    v.push(111);
    v.push(106);
    v.push(101);
    v.push(99);
    v.push(116);
    v.push(95);
    v.push(105);
    v.push(100);
    proof {
        assert(v@ =~= spec_project_id_attr_name());
    }
    v
}

/// The claims of an issued credential: exactly the supplied attributes, in
/// order, followed by the reserved `project_id` pair.
pub open spec fn spec_credential_attrs(
    attrs: Seq<(Seq<u8>, Seq<u8>)>,
    project: Seq<u8>,
) -> Seq<(Seq<u8>, Seq<u8>)> {
    attrs.push((spec_project_id_attr_name(), project))
}

/// The signed part of the credential issued to `subject`.
pub open spec fn spec_credential_data(
    subject: Seq<u8>,
    attrs: Seq<(Seq<u8>, Seq<u8>)>,
    project: Seq<u8>,
) -> CredDataView {
    CredDataView {
        subject,
        schema: PROJECT_MEMBER_SCHEMA,
        attrs: spec_credential_attrs(attrs, project),
    }
}

/// Assembles the signed part of a credential.
pub fn build_credential_data(subject: &IdentityId, attrs: &Vec<Attr>, project: &Vec<u8>) -> (r:
    CredentialData)
    ensures
        r@ == spec_credential_data(subject@, attrs_of(attrs@), project@),
{
    let mut a = clone_attrs(attrs);
    a.push(Attr { name: project_id_attr_name(), value: clone_bytes(project) });
    let r = CredentialData {
        subject: subject.clone(),
        schema: PROJECT_MEMBER_SCHEMA,
        attrs: a,
    };
    proof {
        assert(attrs_of(r.attrs@) =~~= spec_credential_attrs(attrs_of(attrs@), project@));
    }
    r
}

/// Produces signatures over credential data with the server's own identity.
///
/// The host implements this against its signing subsystem; the server treats
/// any error as an internal failure of the current request. Nothing is
/// assumed about the bytes that come back.
pub trait CredentialSigner {
    fn sign(&mut self, data: &CredentialData) -> Result<Vec<u8>, Vec<u8>>;
}

} // verus!
