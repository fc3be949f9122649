use krun::config::VmConfig;
use krun::contexts::{krun_create_ctx, krun_free_ctx, Contexts};
use krun::storage::{krun_add_virtiofs3, krun_disable_implicit_init};

const INIT: &[u8] = b"\x7fELF init";

fn defaults() -> VmConfig {
    VmConfig {
        vcpu_count: Some(1),
        mem_size_mib: Some(128),
        ht_enabled: Some(false),
        cpu_template: None,
    }
}

fn create(ctxs: &mut Contexts) -> u32 {
    krun_create_ctx(ctxs, true, None, defaults()) as u32
}

#[test]
fn test_disable_implicit_init() {
    let mut ctxs = Contexts::new();
    let ctx = create(&mut ctxs);
    assert!(krun_disable_implicit_init(&mut ctxs, ctx, Some(INIT)).is_ok());
    assert!(
        krun_add_virtiofs3(
            &mut ctxs,
            ctx,
            Some(INIT),
            Some(b"/dev/root"),
            Some(b"/tmp"),
            0,
            false
        )
        .is_ok()
    );

    let cfg = ctxs.get(ctx).unwrap();
    assert_eq!(cfg.fs.len(), 1);
    assert!(
        cfg.fs[0].virtual_entries.is_empty(),
        "root virtiofs should not inject init.krun after krun_disable_implicit_init()"
    );

    assert_eq!(krun_free_ctx(&mut ctxs, ctx), Ok(0));
}
