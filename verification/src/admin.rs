//! The administrative procedures, and the names they are called by.

use vstd::hash_map::StringHashMap;
use vstd::prelude::*;

verus! {

/// Makes a procedure of one kind.
#[derive(Clone, Copy, Debug, PartialEq, Eq, Structural)]
pub enum ProcedureCreator {
    /// Shows or sets the quota of a tenant.
    TenantQuota,
    /// Shows the license.
    LicenseInfo,
}

/// The procedures that can be called, by name.
pub struct ProcedureFactory {
    creators: StringHashMap<ProcedureCreator>,
}

impl View for ProcedureFactory {
    type V = Map<Seq<char>, ProcedureCreator>;

    closed spec fn view(&self) -> Map<Seq<char>, ProcedureCreator> {
        self.creators@
    }
}

impl ProcedureFactory {
    /// A factory without procedures.
    pub fn create() -> (r: ProcedureFactory)
        ensures
            r@ == Map::<Seq<char>, ProcedureCreator>::empty(),
    {
        ProcedureFactory { creators: StringHashMap::new() }
    }

    /// Makes a procedure known by a name, in place of one that had it.
    pub fn register(&mut self, name: &str, creator: ProcedureCreator)
        ensures
            final(self)@ == old(self)@.insert(name@, creator),
    {
        self.creators.insert(name.to_owned(), creator);
    }

    /// The procedure that is known by a name.
    pub fn get(&self, name: &str) -> (r: Option<ProcedureCreator>)
        ensures
            r == (if self@.contains_key(name@) {
                Some(self@[name@])
            } else {
                None
            }),
    {
        match self.creators.get(name) {
            Some(creator) => Some(*creator),
            None => None,
        }
    }
}

/// The administrative procedures.
pub struct AdminProcedure;

/// A factory that knows the administrative procedures besides those it knew.
pub open spec fn with_admin_procedures(
    known: Map<Seq<char>, ProcedureCreator>,
) -> Map<Seq<char>, ProcedureCreator> {
    known.insert("admin$tenant_quota"@, ProcedureCreator::TenantQuota).insert(
        "admin$license_info"@,
        ProcedureCreator::LicenseInfo,
    )
}

impl AdminProcedure {
    /// Makes the administrative procedures known, each by its name.
    pub fn register(factory: &mut ProcedureFactory)
        ensures
            final(factory)@ == with_admin_procedures(old(factory)@),
            final(factory)@ == old(factory)@.insert("admin$tenant_quota"@, ProcedureCreator::TenantQuota).insert(
                "admin$license_info"@,
                ProcedureCreator::LicenseInfo,
            ),
    {
        factory.register("admin$tenant_quota", ProcedureCreator::TenantQuota);
        factory.register("admin$license_info", ProcedureCreator::LicenseInfo);
    }
}

/// Each administrative procedure is found under its own name, and all others stay as they were.
pub proof fn law_admin_procedures_are_found(known: Map<Seq<char>, ProcedureCreator>, name: Seq<char>)
    ensures
        with_admin_procedures(known).contains_pair(
            "admin$tenant_quota"@,
            ProcedureCreator::TenantQuota,
        ),
        with_admin_procedures(known).contains_pair(
            "admin$license_info"@,
            ProcedureCreator::LicenseInfo,
        ),
        name != "admin$tenant_quota"@ && name != "admin$license_info"@ ==> {
            &&& with_admin_procedures(known).contains_key(name) == known.contains_key(name)
            &&& known.contains_key(name) ==> with_admin_procedures(known)[name] == known[name]
        },
{
    reveal_strlit("admin$tenant_quota");
    reveal_strlit("admin$license_info");
    assert("admin$tenant_quota"@[6] != "admin$license_info"@[6]);
}

/// Registering the administrative procedures again changes nothing.
pub proof fn law_admin_registration_is_idempotent(known: Map<Seq<char>, ProcedureCreator>)
    ensures
        with_admin_procedures(with_admin_procedures(known)) == with_admin_procedures(known),
{
    law_admin_procedures_are_found(known, "admin$tenant_quota"@);
    assert(with_admin_procedures(with_admin_procedures(known)) =~= with_admin_procedures(known));
}

} // verus!
