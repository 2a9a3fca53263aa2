use std::sync::{Arc, Mutex};

use growlerdb_engine::auth::{
    authorize, authorize_index, default_auth, tenant_of, AuthContext, AuthDenied, AuthHook,
    SharedAuth,
};
use growlerdb_engine::metadata::{INDEXES_KEY, PRINCIPAL_KEY, ROLES_KEY, TENANT_KEY};
use growlerdb_engine::status::Code;
use tonic::metadata::MetadataMap;

fn request_with(principal: Option<&str>, tenant: Option<&str>) -> MetadataMap {
    let mut md = MetadataMap::new();
    if let Some(p) = principal {
        md.insert(PRINCIPAL_KEY, p.parse().unwrap());
    }
    if let Some(t) = tenant {
        md.insert(TENANT_KEY, t.parse().unwrap());
    }
    md
}

struct Capture(Arc<Mutex<AuthContext>>);

impl AuthHook for Capture {
    fn authorize(&self, ctx: &AuthContext) -> Result<(), AuthDenied> {
        *self.0.lock().unwrap() = ctx.clone();
        Ok(())
    }
}

struct DenyTenant(&'static str);

impl AuthHook for DenyTenant {
    fn authorize(&self, ctx: &AuthContext) -> Result<(), AuthDenied> {
        if ctx.tenant.as_deref() == Some(self.0) {
            Err(AuthDenied::new("tenant is blocked".to_string()))
        } else {
            Ok(())
        }
    }

    fn is_authorizing(&self) -> bool {
        true
    }
}

#[test]
fn allow_all_permits_everything() {
    let auth = default_auth();
    let md = request_with(Some("alice"), Some("acme"));
    assert!(authorize(&auth, "Search", &md).is_ok());
    assert!(!auth.hook.is_authorizing());
}

#[test]
fn context_carries_principal_and_tenant_from_metadata() {
    let seen = Arc::new(Mutex::new(AuthContext::default()));
    let auth = SharedAuth {
        hook: Box::new(Capture(seen.clone())),
    };
    let md = request_with(Some("bob"), Some("globex"));
    authorize(&auth, "GetByKey", &md).unwrap();
    let ctx = seen.lock().unwrap().clone();
    assert_eq!(ctx.method, "GetByKey");
    assert_eq!(ctx.principal.as_deref(), Some("bob"));
    assert_eq!(ctx.tenant.as_deref(), Some("globex"));
    assert_eq!(ctx.index, None);
    assert_eq!(tenant_of(&md).as_deref(), Some("globex"));
}

#[test]
fn context_carries_roles_and_indexes_as_lists() {
    let seen = Arc::new(Mutex::new(AuthContext::default()));
    let auth = SharedAuth {
        hook: Box::new(Capture(seen.clone())),
    };
    let mut md = request_with(None, None);
    md.insert(ROLES_KEY, "reader, ,admin ".parse().unwrap());
    md.insert(INDEXES_KEY, "docs".parse().unwrap());
    authorize_index(&auth, "Search", Some("docs"), &md).unwrap();
    let ctx = seen.lock().unwrap().clone();
    assert_eq!(ctx.roles, vec!["reader", "admin"]);
    assert_eq!(ctx.allowed_indexes, vec!["docs"]);
    assert_eq!(ctx.index.as_deref(), Some("docs"));
    assert_eq!(ctx.principal, None);
}

#[test]
fn a_denying_hook_maps_to_permission_denied() {
    let auth = SharedAuth {
        hook: Box::new(DenyTenant("blocked")),
    };
    assert!(authorize(&auth, "Search", &request_with(None, Some("ok"))).is_ok());
    let err = authorize(&auth, "Search", &request_with(None, Some("blocked"))).unwrap_err();
    assert_eq!(err.code, Code::PermissionDenied);
    assert_eq!(err.reason, "PERMISSION_DENIED");
    assert_eq!(err.message, "tenant is blocked");
    assert!(auth.hook.is_authorizing());
}
