use mewt::languages::solidity::engine::SolidityLanguageEngine;
use mewt::registry::{Engine, LanguageRegistry};

#[test]
fn test_parse_simple_contract() {
    let source = r#"
pragma solidity ^0.8.0;

contract SimpleContract {
    function hello() public pure returns (string memory) {
        return "Hello, World!";
    }
}
"#;

    let mut registry = LanguageRegistry::new();
    registry.register(Engine::Solidity(SolidityLanguageEngine::new()));
    let source_content = source.to_string();
    let tree = registry
        .parse("Solidity", &source_content)
        .expect("Failed to parse");
    let root = &tree;

    assert!(!root.has_error(), "Parse tree should not have errors");
    assert!(root.child_count() > 0, "Root should have children");
}

#[test]
fn test_parse_complex_contract() {
    let source = r#"
// SPDX-License-Identifier: MIT
pragma solidity ^0.8.0;

import "@openzeppelin/contracts/token/ERC20/ERC20.sol";

contract ComplexContract is ERC20 {
    mapping(address => bool) public authorized;
    uint256 private _totalSupply;
    
    event AuthorizedUpdated(address indexed user, bool status);
    
    modifier onlyAuthorized() {
        require(authorized[msg.sender], "Not authorized");
        _;
    }
    
    constructor(string memory name, string memory symbol) ERC20(name, symbol) {
        authorized[msg.sender] = true;
        _totalSupply = 1000000 * 10**decimals();
        _mint(msg.sender, _totalSupply);
    }
    
    function authorize(address user, bool status) external onlyAuthorized {
        authorized[user] = status;
        emit AuthorizedUpdated(user, status);
    }
    
    function transfer(address to, uint256 amount) public override returns (bool) {
        require(authorized[msg.sender] || authorized[to], "Transfer not authorized");
        return super.transfer(to, amount);
    }
}
"#;

    let mut registry = LanguageRegistry::new();
    registry.register(Engine::Solidity(SolidityLanguageEngine::new()));
    let source_content = source.to_string();
    let tree = registry
        .parse("Solidity", &source_content)
        .expect("Failed to parse");
    let root = &tree;

    assert!(
        !root.has_error(),
        "Parse tree should not have errors for complex code"
    );
    assert!(root.child_count() > 0, "Root should have children");
}

#[test]
fn parser_tests_test_parse_with_comments() {
    let source = r#"
// SPDX-License-Identifier: MIT
pragma solidity ^0.8.0;

contract CommentedContract {
    // This is a line comment
    uint256 public value;
    
    /* This is a block comment */
    function setValue(uint256 _value) public {
        // Another comment
        value = _value;
        /* Multi-line
           block comment */
    }
}
"#;

    let mut registry = LanguageRegistry::new();
    registry.register(Engine::Solidity(SolidityLanguageEngine::new()));
    let source_content = source.to_string();
    let tree = registry
        .parse("Solidity", &source_content)
        .expect("Failed to parse");
    let root = &tree;

    assert!(
        !root.has_error(),
        "Parse tree should not have errors with comments"
    );
}

#[test]
fn parser_tests_test_parse_hello_world_example() {
    let source_content = "pragma solidity ^0.8.0;\n\ncontract HelloWorld {\n    function hello() public pure returns (string memory) {\n        return \"Hello, World!\";\n    }\n}\n".to_string();
    let mut registry = LanguageRegistry::new();
    registry.register(Engine::Solidity(SolidityLanguageEngine::new()));
    let tree = registry
        .parse("Solidity", &source_content)
        .expect("Failed to parse example");
    let root = &tree;

    assert!(
        !root.has_error(),
        "Parse tree should not have errors for example"
    );
    assert!(root.child_count() > 0, "Root should have children");
}

#[test]
fn parser_tests_test_parse_with_syntax_error() {
    let source = r#"
pragma solidity ^0.8.0;

contract BrokenContract {
    function broken( public pure returns (string memory) {
        return "This has a syntax error";
    }
}
"#;

    let mut registry = LanguageRegistry::new();
    registry.register(Engine::Solidity(SolidityLanguageEngine::new()));
    let source_content = source.to_string();
    let tree = registry
        .parse("Solidity", &source_content)
        .expect("Failed to parse");
    let root = &tree;

    // Even with syntax errors, tree-sitter should still produce a tree
    assert!(
        root.child_count() > 0,
        "Root should still have children even with errors"
    );
}
