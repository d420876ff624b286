mod error;
pub mod lambda;
pub mod model;
pub mod tree;

pub use error::Error;
pub use lambda::LambdaModel;
pub use model::CognitiveModel;
pub use tree::TreeModel;
