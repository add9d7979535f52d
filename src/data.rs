use vstd::prelude::*;

verus! {

/// Largest number of file bytes carried by one `Chunk` frame when a staged
/// file is relayed to its recipient.
pub const CHUNK_SIZE: usize = 1024;

/// A pending offer: `sender` wants to hand the file `filename` to the user
/// whose queue holds this request.
#[derive(Clone, Debug)]
pub struct Request {
    pub sender: String,
    pub filename: String,
}

/// Abstract value of a request: (sender, file name).
pub type OfferView = (Seq<char>, Seq<char>);

impl View for Request {
    type V = OfferView;

    open spec fn view(&self) -> OfferView {
        (self.sender@, self.filename@)
    }
}

impl Request {
    /// A copy of this request.
    pub fn duplicate(&self) -> (r: Request)
        ensures
            r@ == self@,
    {
        Request { sender: self.sender.clone(), filename: self.filename.clone() }
    }
}

/// Abstract value of a list of requests.
pub open spec fn requests_view(v: Seq<Request>) -> Seq<OfferView> {
    v.map_values(|r: Request| r@)
}

/// The record that the registry keeps for one connected user.
#[derive(Debug)]
pub struct UserData {
    pub socket: String,
    pub incoming_requests: Vec<Request>,
}

/// Abstract value of a user record: its connection address and its queue.
pub struct UserView {
    pub socket: Seq<char>,
    pub queue: Seq<OfferView>,
}

impl View for UserData {
    type V = UserView;

    open spec fn view(&self) -> UserView {
        UserView {
            socket: self.socket@,
            queue: requests_view(self.incoming_requests@),
        }
    }
}

} // verus!
