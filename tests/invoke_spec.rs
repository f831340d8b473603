use polywrap_msgpack::invoke::{alloc_exact, invoke_reply, InvokeArgs};

fn method_name(input: &[u8]) -> Vec<u8> {
    input.to_vec()
}

#[test]
fn it_compiles_sanity() {
    let invoke_args = InvokeArgs::from_host(alloc_exact(10), alloc_exact(10)).unwrap();
    let output = method_name(invoke_args.args.as_slice());
    assert!(invoke_reply(&invoke_args.method, Some(output)).is_success())
}
