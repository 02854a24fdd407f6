use chashmap::CHashMap;

use summon_app::prop::{
    ngx_http_summon_app_set_command, ngx_http_summon_app_set_idle_timeout,
    ngx_http_summon_app_set_log, ngx_http_summon_app_set_min_instance,
    ngx_http_summon_app_set_root, ngx_http_summon_app_set_show_crash,
    ngx_http_summon_app_set_use_port, ngx_http_summon_app_set_user,
};
use summon_app::prop::PortRegistry;
use summon_app::summon::{
    access_outcome, instance_count, instance_key, new_entry, port_choice, process_key,
    should_summon, summon_decision, AccessOutcome, PortChoice, Summoned,
};
use summon_app::timer::{
    determine_lowest_interval, idle_action, plan_idle_kills, IdleAction, KillerState,
};
use summon_app::types::{ModuleConfig, ModuleCtx, SafeModuleCtx};
use summon_app::utils::{
    connect_step, decimal_string, local_address, now_timestamp, parse_duration_to_seconds,
    parse_on_off_to_bool, parse_unsigned_prefix, duration_fits, should_spawn, spawn_plan, command_args, parent_dir_of, secs_or_zero, LogTarget, ConnectStep, DEFAULT_IDLE_TIMEOUT,
};

fn ctx(pid: usize, timeout: u64, lastreq: u64) -> SafeModuleCtx {
    SafeModuleCtx { pid, port: 8000, timeout, lastreq }
}

fn configured() -> ModuleConfig {
    let mut c = ModuleConfig::default();
    ngx_http_summon_app_set_command(&mut c, "node app.js");
    ngx_http_summon_app_set_user(&mut c, "alice");
    c
}

#[test]
fn duration_units() {
    assert_eq!(parse_duration_to_seconds("30s"), Ok(30));
    assert_eq!(parse_duration_to_seconds("15m"), Ok(900));
    assert_eq!(parse_duration_to_seconds("2h"), Ok(7200));
    assert_eq!(parse_duration_to_seconds("1d"), Ok(86400));
    assert_eq!(parse_duration_to_seconds("0s"), Ok(0));
    assert_eq!(parse_duration_to_seconds("+5m"), Ok(300));
    assert_eq!(parse_duration_to_seconds("007s"), Ok(7));
}

#[test]
fn duration_too_short() {
    assert_eq!(parse_duration_to_seconds(""), Err("Input too short"));
    assert_eq!(parse_duration_to_seconds("5"), Err("Input too short"));
    assert_eq!(parse_duration_to_seconds("m"), Err("Input too short"));
}

#[test]
fn duration_invalid_number() {
    assert_eq!(parse_duration_to_seconds("xm"), Err("Invalid number"));
    assert_eq!(parse_duration_to_seconds("-5m"), Err("Invalid number"));
    assert_eq!(parse_duration_to_seconds("+m"), Err("Invalid number"));
    assert_eq!(parse_duration_to_seconds(" 5m"), Err("Invalid number"));
    assert_eq!(parse_duration_to_seconds("1 5m"), Err("Invalid number"));
    assert_eq!(parse_duration_to_seconds("18446744073709551616s"), Err("Invalid number"));
}

#[test]
fn duration_unsupported_unit() {
    assert_eq!(parse_duration_to_seconds("5x"), Err("Unsupported unit"));
    assert_eq!(parse_duration_to_seconds("5S"), Err("Unsupported unit"));
    assert_eq!(parse_duration_to_seconds("10"), Err("Unsupported unit"));
}

#[test]
fn duration_largest() {
    assert_eq!(parse_duration_to_seconds("18446744073709551615s"), Ok(u64::MAX));
}

#[test]
fn on_off() {
    assert_eq!(parse_on_off_to_bool("on"), Ok(true));
    assert_eq!(parse_on_off_to_bool("off"), Ok(false));
    assert_eq!(parse_on_off_to_bool("ON"), Err("Invalid input"));
    assert_eq!(parse_on_off_to_bool(""), Err("Invalid input"));
    assert_eq!(parse_on_off_to_bool("of"), Err("Invalid input"));
    assert_eq!(parse_on_off_to_bool("onn"), Err("Invalid input"));
}

#[test]
fn unsigned_prefix() {
    assert_eq!(parse_unsigned_prefix(b"123", 3, u64::MAX), Some(123));
    assert_eq!(parse_unsigned_prefix(b"123", 2, u64::MAX), Some(12));
    assert_eq!(parse_unsigned_prefix(b"+7", 2, u64::MAX), Some(7));
    assert_eq!(parse_unsigned_prefix(b"+", 1, u64::MAX), None);
    assert_eq!(parse_unsigned_prefix(b"", 0, u64::MAX), None);
    assert_eq!(parse_unsigned_prefix(b"65535", 5, 65535), Some(65535));
    assert_eq!(parse_unsigned_prefix(b"65536", 5, 65535), None);
    assert_eq!(parse_unsigned_prefix(b"12a", 3, u64::MAX), None);
}

#[test]
fn decimal_text() {
    assert_eq!(decimal_string(0), "0");
    assert_eq!(decimal_string(7), "7");
    assert_eq!(decimal_string(10), "10");
    assert_eq!(decimal_string(65535), "65535");
    assert_eq!(decimal_string(u64::MAX), u64::MAX.to_string());
}

#[test]
fn decimal_text_reads_back() {
    for n in [0u64, 9, 10, 99, 100, 8080, 65535] {
        let s = decimal_string(n);
        assert_eq!(parse_unsigned_prefix(s.as_bytes(), s.len(), u64::MAX), Some(n));
        let d = format!("{}m", s);
        assert_eq!(parse_duration_to_seconds(&d), Ok(n * 60));
    }
}

#[test]
fn spawn_text() {
    let mut c = ModuleConfig::default();
    ngx_http_summon_app_set_command(&mut c, "npm start");
    ngx_http_summon_app_set_user(&mut c, "bob");
    let p = spawn_plan(&c, "/var/www/site/public", None, 3001);
    assert_eq!(p.script, "source /etc/profile ; source ~/.profile ; npm start");
    assert_eq!(p.dir, "/var/www/site");
    assert_eq!(p.user, "bob");
    assert!(matches!(p.log, LogTarget::ErrorLog));
    assert_eq!(p.home, "/home/bob");
    assert_eq!(p.port, "3001");
    assert_eq!(local_address(3001), "127.0.0.1:3001");
}

#[test]
fn spawn_settings_used() {
    let mut c = ModuleConfig::default();
    ngx_http_summon_app_set_command(&mut c, "node app.js");
    ngx_http_summon_app_set_root(&mut c, "/srv/app");
    ngx_http_summon_app_set_log(&mut c, "/var/log/app.log");
    let p = spawn_plan(&c, "/var/www/html", Some("carol"), 8080);
    assert_eq!(p.dir, "/srv/app");
    assert_eq!(p.user, "carol");
    assert_eq!(p.home, "/home/carol");
    match p.log {
        LogTarget::File(path) => assert_eq!(path, "/var/log/app.log"),
        LogTarget::ErrorLog => panic!("a log path was set"),
    }
    let q = spawn_plan(&c, "/var/www/html", None, 8080);
    assert_eq!(q.user, "nobody");
    assert_eq!(q.home, "/home/nobody");
}

#[test]
fn parent_dirs() {
    assert_eq!(parent_dir_of("/var/www/html"), "/var/www");
    assert_eq!(parent_dir_of("/var/www/html/"), "/var/www");
    assert_eq!(parent_dir_of("/srv"), "/");
    assert_eq!(parent_dir_of("/"), "/");
    assert_eq!(parent_dir_of("html"), ".");
    assert_eq!(parent_dir_of(""), ".");
    assert_eq!(parent_dir_of("a/b"), "a");
}

#[test]
fn args_of_command() {
    assert_eq!(command_args("node app.js"), vec!["app.js".to_string()]);
    assert_eq!(
        command_args("  python3   -m\thttp.server "),
        vec!["-m".to_string(), "http.server".to_string()]
    );
    assert!(command_args("").is_empty());
    assert!(command_args("server").is_empty());
}

#[test]
fn instances_and_ports() {
    let mut c = configured();
    assert_eq!(instance_count(&c), 1);
    ngx_http_summon_app_set_min_instance(&mut c, "3");
    assert_eq!(instance_count(&c), 3);
    ngx_http_summon_app_set_min_instance(&mut c, "0");
    assert_eq!(instance_count(&c), 1);
    assert_eq!(instance_key("h", "cmd", 0), "h:cmd");
    assert_eq!(instance_key("h", "cmd", 2), "h:cmd#2");
    assert_eq!(port_choice(&c), PortChoice::Free);
    let mut reg = PortRegistry::new();
    assert_eq!(ngx_http_summon_app_set_use_port(&mut c, "8080", &mut reg), Ok(()));
    assert_eq!(port_choice(&c), PortChoice::Reserved(8080));
}

#[test]
fn reserved_port_twice_fails() {
    let mut reg = PortRegistry::new();
    let mut a = configured();
    let mut b = configured();
    assert_eq!(ngx_http_summon_app_set_use_port(&mut a, "9000", &mut reg), Ok(()));
    assert!(reg.contains(9000));
    assert_eq!(
        ngx_http_summon_app_set_use_port(&mut b, "9000", &mut reg),
        Err("Port already in use")
    );
    assert_eq!(b.use_port, 0);
    assert_eq!(ngx_http_summon_app_set_use_port(&mut b, "9001", &mut reg), Ok(()));
    assert_eq!(b.use_port, 9001);
    assert_eq!(ngx_http_summon_app_set_use_port(&mut b, "none", &mut reg), Ok(()));
    assert_eq!(b.use_port, 0);
    assert!(!reg.contains(0));
}

#[test]
fn elapsed_seconds() {
    assert_eq!(secs_or_zero(Ok(std::time::Duration::from_millis(5_900))), 5);
    let before = std::time::SystemTime::UNIX_EPOCH
        .duration_since(std::time::SystemTime::now());
    assert_eq!(secs_or_zero(before), 0);
}

#[test]
fn connect_steps() {
    assert_eq!(connect_step(true, 0), ConnectStep::Connected);
    assert_eq!(connect_step(true, 40_000_000_000), ConnectStep::Connected);
    assert_eq!(connect_step(false, 1), ConnectStep::Retry);
    assert_eq!(connect_step(false, 30_000_000_000), ConnectStep::Retry);
    assert_eq!(connect_step(false, 30_000_000_001), ConnectStep::GiveUp);
}

#[test]
fn module_ctx_port() {
    let mut c = ModuleCtx::default();
    assert_eq!(c.pid, 0);
    assert_eq!(c.bind_port(), None);
    c.save(4242, 8080);
    assert_eq!(c.pid, 4242);
    assert_eq!(c.bind_port(), Some("8080"));
}

#[test]
fn config_defaults() {
    let c = ModuleConfig::default();
    assert_eq!(c.command, "");
    assert_eq!(c.idle_timeout, 900);
    assert_eq!(c.min_instance, 1);
    assert_eq!(c.use_port, 0);
    assert!(!c.show_crash);
}

#[test]
fn config_text_directives() {
    let mut c = ModuleConfig::default();
    ngx_http_summon_app_set_command(&mut c, "python3 -m http.server");
    ngx_http_summon_app_set_root(&mut c, "/srv/app");
    ngx_http_summon_app_set_user(&mut c, "www");
    ngx_http_summon_app_set_log(&mut c, "/var/log/app.log");
    assert_eq!(c.command, "python3 -m http.server");
    assert_eq!(c.root, "/srv/app");
    assert_eq!(c.user, "www");
    assert_eq!(c.log, "/var/log/app.log");
    assert_eq!(c.idle_timeout, 900);
}

#[test]
fn config_idle_timeout() {
    let mut c = configured();
    ngx_http_summon_app_set_idle_timeout(&mut c, "2h");
    assert_eq!(c.idle_timeout, 7200);
    ngx_http_summon_app_set_idle_timeout(&mut c, "0s");
    assert_eq!(c.idle_timeout, 0);
    ngx_http_summon_app_set_idle_timeout(&mut c, "5m");
    ngx_http_summon_app_set_idle_timeout(&mut c, "0");
    assert_eq!(c.idle_timeout, 0);
    ngx_http_summon_app_set_idle_timeout(&mut c, "5");
    assert_eq!(c.idle_timeout, DEFAULT_IDLE_TIMEOUT);
    ngx_http_summon_app_set_idle_timeout(&mut c, "soon");
    assert_eq!(c.idle_timeout, DEFAULT_IDLE_TIMEOUT);
    assert_eq!(c.command, "node app.js");
}

#[test]
fn config_numbers_and_switch() {
    let mut c = configured();
    ngx_http_summon_app_set_min_instance(&mut c, "3");
    assert_eq!(c.min_instance, 3);
    ngx_http_summon_app_set_min_instance(&mut c, "many");
    assert_eq!(c.min_instance, 1);
    let mut reg = PortRegistry::new();
    assert_eq!(ngx_http_summon_app_set_use_port(&mut c, "8080", &mut reg), Ok(()));
    assert_eq!(c.use_port, 8080);
    assert_eq!(ngx_http_summon_app_set_use_port(&mut c, "70000", &mut reg), Ok(()));
    assert_eq!(c.use_port, 0);
    ngx_http_summon_app_set_show_crash(&mut c, "on");
    assert!(c.show_crash);
    ngx_http_summon_app_set_show_crash(&mut c, "yes");
    assert!(!c.show_crash);
    assert_eq!(c.user, "alice");
}

#[test]
fn summon_requires_command() {
    let c = configured();
    assert!(should_summon(&c));
    assert_eq!(access_outcome(&c, true), AccessOutcome::Summon);
    assert_eq!(access_outcome(&c, false), AccessOutcome::Decline);
    let mut no_user = ModuleConfig::default();
    ngx_http_summon_app_set_command(&mut no_user, "node app.js");
    assert!(should_summon(&no_user));
    assert_eq!(access_outcome(&no_user, true), AccessOutcome::Summon);
    let mut no_command = ModuleConfig::default();
    ngx_http_summon_app_set_user(&mut no_command, "alice");
    assert!(!should_summon(&no_command));
}

#[test]
fn key_and_entries() {
    assert_eq!(process_key("example.com", "node app.js"), "example.com:node app.js");
    let mut c = configured();
    ngx_http_summon_app_set_idle_timeout(&mut c, "10m");
    let e = new_entry(77, 9000, &c, 1_000);
    assert_eq!(e, SafeModuleCtx { pid: 77, port: 9000, timeout: 600, lastreq: 1_000 });
}

#[test]
fn summon_reuse_or_spawn() {
    let found = ctx(5, 60, 100);
    assert_eq!(
        summon_decision(Some(found), true, 500),
        Summoned::Reuse(SafeModuleCtx { lastreq: 500, ..found })
    );
    assert_eq!(summon_decision(Some(found), false, 500), Summoned::Spawn);
    assert_eq!(summon_decision(None, true, 500), Summoned::Spawn);
}

#[test]
fn idle_actions() {
    assert_eq!(idle_action(&ctx(1, 0, 0), 1_000_000), IdleAction::Keep);
    assert_eq!(idle_action(&ctx(1, 100, 1_000), 1_100), IdleAction::Keep);
    assert_eq!(idle_action(&ctx(1, 100, 1_000), 1_101), IdleAction::Stop);
    assert_eq!(idle_action(&ctx(1, 100, 1_000), 1_160), IdleAction::Stop);
    assert_eq!(idle_action(&ctx(1, 100, 1_000), 1_161), IdleAction::ForceStop);
}

#[test]
fn fresh_entry_kept() {
    let e = new_entry(3, 3000, &configured(), 5_000);
    assert_eq!(idle_action(&e, 5_000), IdleAction::Keep);
}

#[test]
fn lowest_interval() {
    let t: CHashMap<String, SafeModuleCtx> = CHashMap::new();
    assert_eq!(determine_lowest_interval(t.clone()), 900);
    t.insert("a:x".to_string(), ctx(1, 0, 0));
    assert_eq!(determine_lowest_interval(t.clone()), 900);
    t.insert("b:x".to_string(), ctx(2, 3600, 0));
    assert_eq!(determine_lowest_interval(t.clone()), 900);
    t.insert("c:x".to_string(), ctx(3, 120, 0));
    t.insert("d:x".to_string(), ctx(4, 300, 0));
    assert_eq!(determine_lowest_interval(t.clone()), 120);
}

#[test]
fn sweep_orders() {
    let t: CHashMap<String, SafeModuleCtx> = CHashMap::new();
    t.insert("keep:x".to_string(), ctx(1, 100, 1_000));
    t.insert("never:x".to_string(), ctx(2, 0, 0));
    t.insert("stop:x".to_string(), ctx(3, 100, 900));
    t.insert("force:x".to_string(), ctx(4, 10, 0));
    let mut orders = plan_idle_kills(t, 1_050).expect("timestamps fit");
    orders.sort_by(|a, b| a.key.cmp(&b.key));
    assert_eq!(orders.len(), 2);
    assert_eq!(orders[0].key, "force:x");
    assert_eq!(orders[0].ctx.pid, 4);
    assert!(orders[0].force);
    assert_eq!(orders[1].key, "stop:x");
    assert_eq!(orders[1].ctx.pid, 3);
    assert!(!orders[1].force);
}

#[test]
fn sweep_overflow() {
    let t: CHashMap<String, SafeModuleCtx> = CHashMap::new();
    t.insert("late:x".to_string(), ctx(1, 10, u64::MAX - 5));
    assert!(plan_idle_kills(t, 0).is_none());
    assert!(plan_idle_kills(CHashMap::new(), 0).unwrap().is_empty());
}

#[test]
fn killer_counts() {
    let mut k = KillerState::new(900);
    assert_eq!(k.interval(), 900);
    assert!(!k.end_pass(60));
    assert_eq!(k.kill_count(), 60);
    assert!(!k.end_pass(40));
    assert_eq!(k.kill_count(), 100);
    assert!(k.end_pass(1));
    assert_eq!(k.kill_count(), 0);
    k.set_interval(120);
    assert_eq!(k.interval(), 120);
    assert!(k.end_pass(usize::MAX));
    assert_eq!(k.kill_count(), 0);
}

#[test]
fn clock_reads_now() {
    let t = now_timestamp();
    assert!(t > 1_600_000_000);
    assert!(now_timestamp() >= t);
}

#[test]
fn duration_fit_checks() {
    assert!(duration_fits("15m"));
    assert!(duration_fits(""));
    assert!(duration_fits("5"));
    assert!(duration_fits("xx"));
    assert!(duration_fits("5x"));
    assert!(duration_fits("18446744073709551615s"));
    assert!(duration_fits("307445734561825860m"));
    assert!(!duration_fits("307445734561825861m"));
    assert!(!duration_fits("18446744073709551615d"));
    assert!(!duration_fits("5\u{e9}"));
    assert!(duration_fits("\u{e9}5m"));
    assert_eq!(parse_duration_to_seconds("\u{e9}5m"), Err("Invalid number"));
}


#[test]
fn sweeper_start() {
    assert!(should_spawn(None));
    assert!(should_spawn(Some(true)));
    assert!(!should_spawn(Some(false)));
}
