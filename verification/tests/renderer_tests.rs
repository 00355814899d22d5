use std::cell::RefCell;
use std::rc::Rc;

use orbit::component::composition::Node;
use orbit::renderer::{CompositeRenderer, Renderer, RendererError};
use orbit::Error;

struct Recording {
    name: &'static str,
    fail: bool,
    log: Rc<RefCell<Vec<&'static str>>>,
}

impl Renderer for Recording {
    fn render(&mut self, _root: &Node) -> Result<(), Error> {
        self.log.borrow_mut().push(self.name);
        if self.fail {
            Err(Error::Render(self.name.to_string()))
        } else {
            Ok(())
        }
    }

    fn name(&self) -> &str {
        self.name
    }
}

#[test]
fn composite_draws_3d_then_2d() {
    let log = Rc::new(RefCell::new(Vec::new()));
    let mut r = CompositeRenderer::new(
        Recording { name: "2d", fail: false, log: log.clone() },
        Recording { name: "3d", fail: false, log: log.clone() },
    );
    assert!(r.init().is_ok());
    r.render(&Node::new(1)).unwrap();
    assert_eq!(*log.borrow(), vec!["3d", "2d"]);
    assert_eq!(r.name(), "Composite Renderer");
    assert!(r.flush().is_ok());
    assert!(r.cleanup().is_ok());
}

#[test]
fn composite_stops_at_the_first_failure() {
    let log = Rc::new(RefCell::new(Vec::new()));
    let mut r = CompositeRenderer::new(
        Recording { name: "2d", fail: false, log: log.clone() },
        Recording { name: "3d", fail: true, log: log.clone() },
    );
    assert_eq!(r.render(&Node::new(1)), Err(Error::Render("3d".to_string())));
    assert_eq!(*log.borrow(), vec!["3d"]);
}

#[test]
fn error_messages() {
    assert_eq!(Error::Parser("bad".to_string()).to_message(), "Parser error: bad");
    assert_eq!(Error::Init("x".to_string()).to_message(), "Initialization error: x");
    assert_eq!(RendererError::GlError("g".to_string()).to_message(), "OpenGL error: g");
}
