use vstd::prelude::*;

verus! {

/// The kinds of sample programs offered in the editor.
#[derive(Debug, Clone, Copy, PartialEq, Eq, Structural)]
pub enum TestType {
    Lex,
    Parse,
}

/// The upper-case name of a kind of sample program.
pub open spec fn test_type_name(t: TestType) -> Seq<char> {
    match t {
        TestType::Lex => "LEX"@,
        TestType::Parse => "PARSE"@,
    }
}

impl TestType {
    /// The upper-case name shown in the editor.
    pub fn name(&self) -> (r: &'static str)
        ensures
            r@ == test_type_name(*self),
    {
        match self {
            TestType::Lex => "LEX",
            TestType::Parse => "PARSE",
        }
    }
}

/// A sample program offered in the editor.
#[derive(Debug)]
pub struct Test {
    pub test_type: TestType,
    pub test_name: String,
    pub test_code: String,
}


/// The sample programs the editor offers, lexer samples first.
pub fn get_tests() -> (r: Vec<Test>)
    ensures
        r@.len() == 19,
            r@[0].test_type == TestType::Lex,
            r@[0].test_name@ == "Alan's tests"@,
            r@[0].test_code@ == "{}$\n{{{{{{}}}}}}$\n{{{{{{}}} /* comments are ignored */ }}}}$\n{ /* comments are still ignored */ int @}$\n{\nint a\na = a\nstring b\na=b\n}$"@,
            r@[1].test_type == TestType::Lex,
            r@[1].test_name@ == "Everything"@,
            r@[1].test_code@ == "{\n  /* This is a COMMENT 007 */\n  string s\n  s = \"hello world\"\n  int a\n  a = 0\n  while (a != 5) {\n    a = 1 + a\n  }\n  if (a == 5) {\n    print(\"success\")\n  }\n  boolean b\n  b = true\n  if (b != false) {\n    print(s)\n  }\n}$"@,
            r@[2].test_type == TestType::Lex,
            r@[2].test_name@ == "Everything but spaces"@,
            r@[2].test_code@ == "{/* This is a COMMENT 007 */stringss=\"hello world\"intaa=0while(a!=5){a=1+a}if(a==5){print(\"success\")}booleanbb=trueif(b!=false){print(s)}}$"@,
            r@[3].test_type == TestType::Lex,
            r@[3].test_name@ == "The pesky $"@,
            r@[3].test_code@ == "{\n  /* This $ is in a comment and should do nothing.\n  The next $ should be the end of the program */\n}$\n  /* This $ should be an invalid character in the string */\n  print(\"hello $ world\")\n  /* A warning should be shown for not having the $ at the end of the program */\n}"@,
            r@[4].test_type == TestType::Lex,
            r@[4].test_name@ == "Testing tabs"@,
            r@[4].test_code@ == "{\n  /*\tTabs are only bad in strings.\n\tThey are ok as whitespace. */\n\tprint(\"testing\ttabs\")\n}$"@,
            r@[5].test_type == TestType::Lex,
            r@[5].test_name@ == "Multi-line things"@,
            r@[5].test_code@ == "{\n  /* This is a\n  multi-line comment */\n  string s\n  s = \"hello world\n  this should be throwing an error\"\n}$"@,
            r@[6].test_type == TestType::Lex,
            r@[6].test_name@ == "Unclosed strings"@,
            r@[6].test_code@ == "{\n  /* Unclosed string on the next line */\n  print(\"hi\n}$\n/* Unclosed string here too */ print(\"hi"@,
            r@[7].test_type == TestType::Parse,
            r@[7].test_name@ == "Alan's tests"@,
            r@[7].test_code@ == "{}$\n{{{{{{}}}}}}$\n{{{{{{}}} /* comments are ignored */ }}}}$\n{ /* comments are still ignored */ int @}$"@,
            r@[8].test_type == TestType::Parse,
            r@[8].test_name@ == "Everything"@,
            r@[8].test_code@ == "{\n  /* This is a COMMENT 007 */\n  string s\n  s = \"hello world\"\n  int a\n  a = 0\n  while (a != 5) {\n    a = 1 + a\n  }\n  if (a == 5) {\n    print(\"success\")\n  }\n  if true {\n    print(s)\n  }\n}$"@,
            r@[9].test_type == TestType::Parse,
            r@[9].test_name@ == "Mismatched operation"@,
            r@[9].test_code@ == "{\n  /* IntExpr = digit intop Expr, NOT Expr intop digit */\n  x = x + 3\n}$\n{\n  /* BoolExpr needs == or !=, not + */\n  while (true + false) {\n    print(\"no good\")\n  }\n}$\n{\n  /* Parentheses with a BoolExpr means comparison, not a single value */\n  while (true) {}\n}$"@,
            r@[10].test_type == TestType::Parse,
            r@[10].test_name@ == "Mismatched types are ok"@,
            r@[10].test_code@ == "{\n  /* Parse does not do type checking */\n  int x\n  x = 7 + \"james bond\"\n}$\n{\n  if (\"josh\" == 3) {\n    print(\"yay\")\n  }\n}$"@,
            r@[11].test_type == TestType::Parse,
            r@[11].test_name@ == "Missing $"@,
            r@[11].test_code@ == "{/* This should throw an error */}"@,
            r@[12].test_type == TestType::Parse,
            r@[12].test_name@ == "Missing blocks"@,
            r@[12].test_code@ == "{\n  if true print(\"hello\")\n}$\n{\n  int x\n  x = 2\n  while (x != 5) x = 1 + x\n}$\n/* Missing the block for the program */\nint a = 3"@,
            r@[13].test_type == TestType::Parse,
            r@[13].test_name@ == "Empty things"@,
            r@[13].test_code@ == "{/* Statement list is empty */}$\n{\n  /* Empty string should also compile */\n  string s\n  s = \"\"\n}$"@,
            r@[14].test_type == TestType::Parse,
            r@[14].test_name@ == "Multi-digit numbers"@,
            r@[14].test_code@ == "{\n  /* This should fail because assignments can only be 1 digit or an int operation */\n  int x\n  x = 42\n}$"@,
            r@[15].test_type == TestType::Parse,
            r@[15].test_name@ == "Parser warnings"@,
            r@[15].test_code@ == "{\n  /* Should have warnings for empty string and block */\n  s = \"\"\n  {}\n}$"@,
            r@[16].test_type == TestType::Parse,
            r@[16].test_name@ == "End of file before end of program 1"@,
            r@[16].test_code@ == "{  print(\"hello\""@,
            r@[17].test_type == TestType::Parse,
            r@[17].test_name@ == "End of file before end of program 2"@,
            r@[17].test_code@ == "{  int a"@,
            r@[18].test_type == TestType::Parse,
            r@[18].test_name@ == "End of file before end of program 3"@,
            r@[18].test_code@ == "{ while"@,
{
    let mut tests: Vec<Test> = Vec::new();
    tests.push(Test { test_type: TestType::Lex, test_name: String::from_str("Alan's tests"), test_code: String::from_str("{}$\n{{{{{{}}}}}}$\n{{{{{{}}} /* comments are ignored */ }}}}$\n{ /* comments are still ignored */ int @}$\n{\nint a\na = a\nstring b\na=b\n}$") });
    tests.push(Test { test_type: TestType::Lex, test_name: String::from_str("Everything"), test_code: String::from_str("{\n  /* This is a COMMENT 007 */\n  string s\n  s = \"hello world\"\n  int a\n  a = 0\n  while (a != 5) {\n    a = 1 + a\n  }\n  if (a == 5) {\n    print(\"success\")\n  }\n  boolean b\n  b = true\n  if (b != false) {\n    print(s)\n  }\n}$") });
    tests.push(Test { test_type: TestType::Lex, test_name: String::from_str("Everything but spaces"), test_code: String::from_str("{/* This is a COMMENT 007 */stringss=\"hello world\"intaa=0while(a!=5){a=1+a}if(a==5){print(\"success\")}booleanbb=trueif(b!=false){print(s)}}$") });
    tests.push(Test { test_type: TestType::Lex, test_name: String::from_str("The pesky $"), test_code: String::from_str("{\n  /* This $ is in a comment and should do nothing.\n  The next $ should be the end of the program */\n}$\n  /* This $ should be an invalid character in the string */\n  print(\"hello $ world\")\n  /* A warning should be shown for not having the $ at the end of the program */\n}") });
    tests.push(Test { test_type: TestType::Lex, test_name: String::from_str("Testing tabs"), test_code: String::from_str("{\n  /*\tTabs are only bad in strings.\n\tThey are ok as whitespace. */\n\tprint(\"testing\ttabs\")\n}$") });
    tests.push(Test { test_type: TestType::Lex, test_name: String::from_str("Multi-line things"), test_code: String::from_str("{\n  /* This is a\n  multi-line comment */\n  string s\n  s = \"hello world\n  this should be throwing an error\"\n}$") });
    tests.push(Test { test_type: TestType::Lex, test_name: String::from_str("Unclosed strings"), test_code: String::from_str("{\n  /* Unclosed string on the next line */\n  print(\"hi\n}$\n/* Unclosed string here too */ print(\"hi") });
    tests.push(Test { test_type: TestType::Parse, test_name: String::from_str("Alan's tests"), test_code: String::from_str("{}$\n{{{{{{}}}}}}$\n{{{{{{}}} /* comments are ignored */ }}}}$\n{ /* comments are still ignored */ int @}$") });
    tests.push(Test { test_type: TestType::Parse, test_name: String::from_str("Everything"), test_code: String::from_str("{\n  /* This is a COMMENT 007 */\n  string s\n  s = \"hello world\"\n  int a\n  a = 0\n  while (a != 5) {\n    a = 1 + a\n  }\n  if (a == 5) {\n    print(\"success\")\n  }\n  if true {\n    print(s)\n  }\n}$") });
    tests.push(Test { test_type: TestType::Parse, test_name: String::from_str("Mismatched operation"), test_code: String::from_str("{\n  /* IntExpr = digit intop Expr, NOT Expr intop digit */\n  x = x + 3\n}$\n{\n  /* BoolExpr needs == or !=, not + */\n  while (true + false) {\n    print(\"no good\")\n  }\n}$\n{\n  /* Parentheses with a BoolExpr means comparison, not a single value */\n  while (true) {}\n}$") });
    tests.push(Test { test_type: TestType::Parse, test_name: String::from_str("Mismatched types are ok"), test_code: String::from_str("{\n  /* Parse does not do type checking */\n  int x\n  x = 7 + \"james bond\"\n}$\n{\n  if (\"josh\" == 3) {\n    print(\"yay\")\n  }\n}$") });
    tests.push(Test { test_type: TestType::Parse, test_name: String::from_str("Missing $"), test_code: String::from_str("{/* This should throw an error */}") });
    tests.push(Test { test_type: TestType::Parse, test_name: String::from_str("Missing blocks"), test_code: String::from_str("{\n  if true print(\"hello\")\n}$\n{\n  int x\n  x = 2\n  while (x != 5) x = 1 + x\n}$\n/* Missing the block for the program */\nint a = 3") });
    tests.push(Test { test_type: TestType::Parse, test_name: String::from_str("Empty things"), test_code: String::from_str("{/* Statement list is empty */}$\n{\n  /* Empty string should also compile */\n  string s\n  s = \"\"\n}$") });
    tests.push(Test { test_type: TestType::Parse, test_name: String::from_str("Multi-digit numbers"), test_code: String::from_str("{\n  /* This should fail because assignments can only be 1 digit or an int operation */\n  int x\n  x = 42\n}$") });
    tests.push(Test { test_type: TestType::Parse, test_name: String::from_str("Parser warnings"), test_code: String::from_str("{\n  /* Should have warnings for empty string and block */\n  s = \"\"\n  {}\n}$") });
    tests.push(Test { test_type: TestType::Parse, test_name: String::from_str("End of file before end of program 1"), test_code: String::from_str("{  print(\"hello\"") });
    tests.push(Test { test_type: TestType::Parse, test_name: String::from_str("End of file before end of program 2"), test_code: String::from_str("{  int a") });
    tests.push(Test { test_type: TestType::Parse, test_name: String::from_str("End of file before end of program 3"), test_code: String::from_str("{ while") });
    tests
}

} // verus!
