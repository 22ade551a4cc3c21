use databend_query::admin::AdminProcedure;
use databend_query::admin::ProcedureCreator;
use databend_query::admin::ProcedureFactory;

#[test]
fn admin_procedures_are_registered() {
    let mut factory = ProcedureFactory::create();
    assert_eq!(factory.get("admin$tenant_quota"), None);
    AdminProcedure::register(&mut factory);
    assert_eq!(
        factory.get("admin$tenant_quota"),
        Some(ProcedureCreator::TenantQuota)
    );
    assert_eq!(
        factory.get("admin$license_info"),
        Some(ProcedureCreator::LicenseInfo)
    );
    assert_eq!(factory.get("admin$license"), None);
}

#[test]
fn registering_again_changes_nothing() {
    let mut factory = ProcedureFactory::create();
    factory.register("other", ProcedureCreator::LicenseInfo);
    AdminProcedure::register(&mut factory);
    AdminProcedure::register(&mut factory);
    assert_eq!(factory.get("other"), Some(ProcedureCreator::LicenseInfo));
    assert_eq!(
        factory.get("admin$tenant_quota"),
        Some(ProcedureCreator::TenantQuota)
    );
}

#[test]
fn a_later_registration_takes_the_name() {
    let mut factory = ProcedureFactory::create();
    factory.register("p", ProcedureCreator::TenantQuota);
    factory.register("p", ProcedureCreator::LicenseInfo);
    assert_eq!(factory.get("p"), Some(ProcedureCreator::LicenseInfo));
}
