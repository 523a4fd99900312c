use fitness_store::llm::{APIChoice, APIMessage, APIResponse, Message};

#[test]
fn response_holds_its_choices() {
    let r = APIResponse {
        choices: vec![APIChoice {
            message: APIMessage { role: "assistant".to_string(), content: "hi".to_string() },
        }],
    };
    assert_eq!(r.choices.len(), 1);
    assert_eq!(r.choices[0].message.content, "hi");
    let m = Message { role: "user".to_string(), content: "hello".to_string() };
    assert_eq!(m.clone(), m);
}
