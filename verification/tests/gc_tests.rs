use std::sync::Arc;

use cadlisp::env::{Env, Model};
use cadlisp::expr::Expr;
use cadlisp::gc::collect_garbage;

#[test]
fn test_define_garbage_collection() {
    let mut env = Env::new();

    // Insert two meshes into the environment; the handles stand for the
    // host's objects
    let id1 = env.insert_model(0, Model::Mesh(1));
    let id2 = env.insert_model(0, Model::Mesh(2));

    // Define a function that uses mesh1
    env.insert(
        0,
        "use_mesh".to_string(),
        Arc::new(Expr::Clausure {
            args: vec!["x".to_string()],
            body: Arc::new(Expr::List {
                elements: vec![
                    Arc::new(Expr::Symbol {
                        name: "list".to_string(),
                        location: None,
                        trailing_newline: false,
                    }),
                    Arc::new(Expr::Model {
                        id: id1,
                        location: None,
                        trailing_newline: false,
                    }),
                ],
                location: None,
                trailing_newline: false,
            }),
            env: 0,
        }),
    );

    // Make id2 reachable through the preview list
    env.insert_preview_list(0, id2);

    // Run garbage collection
    collect_garbage(&mut env, 0);

    // Both meshes should be reachable
    assert!(
        env.get_model(0, id1).is_some(),
        "mesh1 should be reachable through function definition"
    );
    assert!(
        env.get_model(0, id2).is_some(),
        "mesh2 should be reachable through preview list"
    );

    // Remove the function definition
    env.clear_vars(0);

    // Run garbage collection again
    collect_garbage(&mut env, 0);

    // mesh1 should now be collected, but mesh2 still reachable through preview
    assert!(
        env.get_model(0, id1).is_none(),
        "mesh1 should be collected after removing function"
    );
    assert!(
        env.get_model(0, id2).is_some(),
        "mesh2 should still be reachable through preview list"
    );
}

#[test]
fn test_stl_garbage_collection() {
    let mut env = Env::new();

    // Insert three meshes into the environment
    let id1 = env.insert_model(0, Model::Mesh(1));
    let id2 = env.insert_model(0, Model::Mesh(2));
    let id3 = env.insert_model(0, Model::Mesh(3));

    // Make id1 reachable through a variable
    env.insert(
        0,
        "mesh1".to_string(),
        Arc::new(Expr::Model {
            id: id1,
            location: None,
            trailing_newline: false,
        }),
    );

    // Make id2 reachable through the preview list
    env.insert_preview_list(0, id2);

    // id3 is unreachable

    // Run garbage collection
    collect_garbage(&mut env, 0);

    // Check that reachable meshes are kept
    assert!(env.get_model(0, id1).is_some());
    assert!(env.get_model(0, id2).is_some());

    // Check that the unreachable mesh is collected
    assert!(env.get_model(0, id3).is_none());
}
