use mia::pipeline::{run_source, RunError};
use mia::type_checker::TypeError;

#[test]
fn first_test() {
    let source = "struct Config {\n    name: String,\n    comment: String,\n    tags: Array<String>,\n    opt: Number?,\n}\n\npub let main = Config {\n    name: 'Some name',\n    comment: '12312',\n    tags: ['tag 1', 'tag 2'],\n    opt: 41.82,\n};\n";
    let out = run_source(source, &mut Vec::new()).unwrap().unwrap();
    assert_eq!(
        out,
        "{\"name\":\"Some name\",\"comment\":\"12312\",\"tags\":[\"tag 1\",\"tag 2\"],\"opt\":41.82}"
    );
}

#[test]
fn second_test() {
    let source = "pub let main = [1, 'one'];\n";
    let out = run_source(source, &mut Vec::new());
    match out {
        Err(RunError::Type(e)) => {
            assert!(matches!(e, TypeError::ArrayElementMismatch));
            assert_eq!(e.message(), "Literal array can only have a single type");
        }
        other => panic!("unexpected {:?}", other),
    }
}

#[test]
fn third_test() {
    let source = "struct Keys {\n    home: String,\n    public_key: String,\n    private_key: String,\n}\n\nlet bob = '/home/bob';\nlet alice = '/home/alice';\n\npub let main = [\n    Keys { home: bob, public_key: bob + '/.ssh/id_ed25519.pub', private_key: bob + '/.ssh/id_ed25519' },\n    Keys { home: alice, public_key: alice + '/.ssh/id_ed25519.pub', private_key: alice + '/.ssh/id_ed25519' },\n];\n";
    let out = run_source(source, &mut Vec::new()).unwrap().unwrap();
    assert_eq!(
        out,
        "[\
    {\"home\":\"/home/bob\",\"public_key\":\"/home/bob/.ssh/id_ed25519.pub\",\"private_key\":\"/home/bob/.ssh/id_ed25519\"},\
    {\"home\":\"/home/alice\",\"public_key\":\"/home/alice/.ssh/id_ed25519.pub\",\"private_key\":\"/home/alice/.ssh/id_ed25519\"}]"
    );
}
