use virus_std::client::Client;
use virus_std::context::{Context, Cursor, Handler};
use virus_std::message::Message;
use virus_std::protocol::protocol::{Demo, MetaData};
use virus_std::service::Service;

/// What a step of the chain does besides leaving its mark.
#[derive(Debug, Clone, Copy, PartialEq)]
enum Then {
    /// Nothing: the caller goes on.
    Return,
    /// Cuts the chain short.
    Abort,
    /// Runs the rest of the chain inside itself, then leaves a second mark.
    Wrap,
}

#[derive(Debug, Clone, Copy, PartialEq)]
struct Step(&'static str, Then);

fn mark(ctx: &mut Context<Demo, Step>, text: &str) {
    let key = "trace".to_string();
    let so_far = ctx.get(&key).cloned().unwrap_or_default();
    ctx.set(key, format!("{}{}", so_far, text));
}

impl Handler<Demo> for Step {
    fn handle(self, ctx: &mut Context<Demo, Step>) {
        mark(ctx, self.0);
        match self.1 {
            Then::Return => {}
            Then::Abort => ctx.abort(),
            Then::Wrap => {
                ctx.next();
                mark(ctx, &self.0.to_lowercase());
            }
        }
    }
}

fn context(steps: Vec<Step>) -> Context<Demo, Step> {
    let message = Message::new(MetaData::default(), Demo::default());
    Context::new(Client { id: 7 }, message, steps)
}

fn trace(ctx: &Context<Demo, Step>) -> String {
    ctx.get(&"trace".to_string()).cloned().unwrap_or_default()
}

fn run(ctx: &mut Context<Demo, Step>) {
    let mut calls = 0;
    while !ctx.is_done() {
        ctx.next();
        calls += 1;
        assert!(calls <= 100);
    }
}

#[test]
fn all_handlers_run_once_and_in_order() {
    let mut ctx = context(vec![
        Step("A", Then::Return),
        Step("B", Then::Return),
        Step("C", Then::Return),
    ]);
    run(&mut ctx);
    assert_eq!(trace(&ctx), "ABC");
    assert!(ctx.is_done());
    assert!(!ctx.is_aborted());
}

#[test]
fn no_handler_runs_after_an_abort() {
    let mut ctx = context(vec![
        Step("A", Then::Return),
        Step("B", Then::Abort),
        Step("C", Then::Return),
    ]);
    run(&mut ctx);
    assert_eq!(trace(&ctx), "AB");
    assert!(ctx.is_done());
    assert!(ctx.is_aborted());
}

#[test]
fn a_handler_that_calls_next_wraps_the_rest_of_the_chain() {
    let mut ctx = context(vec![
        Step("A", Then::Wrap),
        Step("B", Then::Wrap),
        Step("C", Then::Return),
    ]);
    ctx.next();
    assert_eq!(trace(&ctx), "ABCba");
    assert!(ctx.is_done());
    assert!(!ctx.is_aborted());
}

#[test]
fn an_abort_inside_a_wrapped_chain_stops_what_follows() {
    let mut ctx = context(vec![
        Step("A", Then::Wrap),
        Step("B", Then::Abort),
        Step("C", Then::Return),
    ]);
    ctx.next();
    assert_eq!(trace(&ctx), "ABa");
    assert!(ctx.is_aborted());
    ctx.next();
    assert_eq!(trace(&ctx), "ABa");
}

#[test]
fn next_calls_one_handler_and_moves_past_it_first() {
    let mut ctx = context(vec![Step("A", Then::Return), Step("B", Then::Return)]);
    assert!(!ctx.is_done());
    ctx.next();
    assert_eq!(trace(&ctx), "A");
    assert!(!ctx.is_done());
    ctx.next();
    assert_eq!(trace(&ctx), "AB");
    assert!(ctx.is_done());
}

#[test]
fn the_final_states_are_final() {
    let mut ctx = context(vec![Step("A", Then::Return)]);
    ctx.next();
    assert!(ctx.is_done());
    // exhausted: neither next nor abort changes anything
    ctx.next();
    ctx.abort();
    assert_eq!(trace(&ctx), "A");
    assert!(!ctx.is_aborted());

    let mut ctx = context(vec![Step("A", Then::Return), Step("B", Then::Return)]);
    ctx.abort();
    ctx.abort();
    ctx.next();
    assert_eq!(trace(&ctx), "");
    assert!(ctx.is_aborted());
}

#[test]
fn a_chain_without_handlers_is_exhausted_from_the_start() {
    let mut ctx = context(Vec::new());
    assert!(ctx.is_done());
    ctx.next();
    ctx.abort();
    assert!(!ctx.is_aborted());
    assert_eq!(trace(&ctx), "");
}

#[test]
fn entries_pass_along_the_chain() {
    let mut ctx = context(Vec::new());
    let key = "user".to_string();
    assert_eq!(ctx.get(&key), None);
    assert_eq!(ctx.set(key.clone(), "ann".to_string()), None);
    assert_eq!(ctx.set(key.clone(), "bob".to_string()), Some("ann".to_string()));
    assert_eq!(ctx.get(&key), Some(&"bob".to_string()));
}

#[test]
fn cursors_compare_by_state() {
    assert_eq!(Cursor::Running(1), Cursor::Running(1));
    assert_ne!(Cursor::Running(1), Cursor::Running(2));
    assert_ne!(Cursor::Exhausted, Cursor::Aborted);
}

#[test]
fn a_service_finds_its_methods_by_name() {
    let mut service: Service<Step> = Service::new("greeter");
    assert_eq!(service.service_name(), "greeter");
    assert_eq!(service.method(&"hello".to_string()), None);
    service.add_method("hello", Step("H", Then::Return));
    service.add_method("bye", Step("B", Then::Abort));
    assert_eq!(
        service.method(&"hello".to_string()),
        Some(&Step("H", Then::Return))
    );
    assert_eq!(
        service.method(&"bye".to_string()),
        Some(&Step("B", Then::Abort))
    );
    assert_eq!(service.method(&"Hello".to_string()), None);
}

#[test]
fn adding_a_method_again_replaces_its_handler() {
    let mut service: Service<Step> = Service::new("greeter");
    service.add_method("hello", Step("1", Then::Return));
    service.add_method("other", Step("2", Then::Return));
    service.add_method("hello", Step("3", Then::Wrap));
    assert_eq!(
        service.method(&"hello".to_string()),
        Some(&Step("3", Then::Wrap))
    );
    assert_eq!(
        service.method(&"other".to_string()),
        Some(&Step("2", Then::Return))
    );
}

#[test]
fn a_handler_found_in_a_service_runs_in_a_chain() {
    let mut service: Service<Step> = Service::new("greeter");
    service.add_method("hello", Step("H", Then::Return));
    let handler = *service.method(&"hello".to_string()).unwrap();
    let mut ctx = context(vec![Step("A", Then::Wrap), handler]);
    ctx.next();
    assert_eq!(trace(&ctx), "AHa");
}
