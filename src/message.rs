use vstd::prelude::*;

verus! {

/// The kind of an event record; passed through verbatim by the relay.
#[derive(Clone, Copy, Debug, PartialEq, Eq, Structural)]
pub enum PredictType {
    TypeOne,
    TypeTwo,
}

/// An event record: the one payload that flows from the upstream stream,
/// through the buffer, to the downstream stream.
#[derive(Clone, Debug)]
pub struct InputMessage {
    pub id: String,
    pub image_path: String,
    pub result_path: String,
    pub predict_type: PredictType,
}

/// The mathematical value of an event record.
pub struct MessageView {
    pub id: Seq<char>,
    pub image_path: Seq<char>,
    pub result_path: Seq<char>,
    pub predict_type: PredictType,
}

impl View for InputMessage {
    type V = MessageView;

    open spec fn view(&self) -> MessageView {
        MessageView {
            id: self.id@,
            image_path: self.image_path@,
            result_path: self.result_path@,
            predict_type: self.predict_type,
        }
    }
}

impl InputMessage {
    /// A copy of the record, field for field.
    pub fn duplicate(&self) -> (r: InputMessage)
        ensures
            r@ == self@,
    {
        InputMessage {
            id: self.id.clone(),
            image_path: self.image_path.clone(),
            result_path: self.result_path.clone(),
            predict_type: self.predict_type,
        }
    }
}

} // verus!
