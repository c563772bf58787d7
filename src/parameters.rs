//! The property menu of a node and the level-triggered sync of its value
//! into the graph model: each frame the menu's value is compared with the
//! model's, and a differing, acceptable value is pushed.
use vstd::prelude::*;

verus! {

/// Entries of a mix node's operator menu: Add, Subtract, Multiply, Divide.
pub const MIX_TYPE_COUNT: u32 = 4;

/// A node's editable parameter, as the model holds it or the menu shows it.
#[derive(Clone, Debug)]
pub enum NodeParameter {
    /// A mix node's operator, by its position in the operator menu.
    Mix(u32),
    /// An image node's file path.
    Image(String),
    /// A node without an editable parameter.
    Fixed,
}

/// The path a blank image node's menu offers.
pub open spec fn default_image_path() -> Seq<char> {
    "data/image_2.png"@
}

/// What the menu opened for a node with parameter `model` shows.
pub open spec fn shows(model: NodeParameter, menu: NodeParameter) -> bool {
    match (model, menu) {
        (NodeParameter::Mix(m), NodeParameter::Mix(k)) => k == m,
        (NodeParameter::Image(p), NodeParameter::Image(q)) => q@ == (if p@.len() == 0 {
            default_image_path()
        } else {
            p@
        }),
        (NodeParameter::Fixed, NodeParameter::Fixed) => true,
        _ => false,
    }
}

/// The value the property menu opens with for a node whose parameter is `model`.
pub fn menu_value(model: &NodeParameter) -> (r: NodeParameter)
    ensures
        shows(*model, r),
{
    match model {
        NodeParameter::Mix(m) => NodeParameter::Mix(*m),
        NodeParameter::Image(p) => {
            if p.as_str().is_empty() {
                proof {
                    reveal_strlit("data/image_2.png");
                }
                NodeParameter::Image("data/image_2.png".to_owned())
            } else {
                NodeParameter::Image(p.clone())
            }
        },
        NodeParameter::Fixed => NodeParameter::Fixed,
    }
}

/// The value to push into the model when the menu shows `menu` and the model
/// holds `model`: the menu's value where it differs and the model can take
/// it (an operator of the menu, a path for an image node).
pub open spec fn spec_parameter_update(model: NodeParameter, menu: NodeParameter) -> Option<
    NodeParameter,
> {
    match (model, menu) {
        (NodeParameter::Mix(m), NodeParameter::Mix(k)) => if k < MIX_TYPE_COUNT && k != m {
            Some(NodeParameter::Mix(k))
        } else {
            None
        },
        (NodeParameter::Image(p), NodeParameter::Image(q)) => if p@ != q@ {
            Some(NodeParameter::Image(q))
        } else {
            None
        },
        _ => None,
    }
}

pub fn parameter_update(model: &NodeParameter, menu: &NodeParameter) -> (r: Option<NodeParameter>)
    ensures
        r == spec_parameter_update(*model, *menu),
{
    match (model, menu) {
        (NodeParameter::Mix(m), NodeParameter::Mix(k)) => {
            if *k < MIX_TYPE_COUNT && *k != *m {
                Some(NodeParameter::Mix(*k))
            } else {
                None
            }
        },
        (NodeParameter::Image(p), NodeParameter::Image(q)) => {
            if *p != *q {
                Some(NodeParameter::Image(q.clone()))
            } else {
                None
            }
        },
        _ => None,
    }
}

} // verus!
