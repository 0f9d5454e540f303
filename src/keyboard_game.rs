use vstd::prelude::*;

verus! {

#[derive(Clone, Copy, PartialEq, Eq, Structural, Debug)]
pub enum Key {
    Left,
    Right,
    Up,
    Down,
    Quit,
}

#[derive(Clone, Copy, PartialEq, Eq, Structural, Debug)]
pub enum LogRecord {
    Started(usize, usize),
    Moved(usize, usize),
    Stayed,
    Finished,
}

/// A marker on a board of `width` by `height` squares, steered by keys; it
/// starts in the corner (0, 0).
pub struct Game {
    x: usize,
    y: usize,
    width: usize,
    height: usize,
    is_started: bool,
}

/// Where a key takes the marker standing at (`x`, `y`), and what is logged
/// for it: a move where the board goes on, staying put at its edge.
pub open spec fn key_effect(x: usize, y: usize, width: usize, height: usize, key: Key) -> (usize, usize, LogRecord) {
    match key {
        Key::Left => if x > 0 {
            ((x - 1) as usize, y, LogRecord::Moved((x - 1) as usize, y))
        } else {
            (x, y, LogRecord::Stayed)
        },
        Key::Right => if x + 1 < width {
            ((x + 1) as usize, y, LogRecord::Moved((x + 1) as usize, y))
        } else {
            (x, y, LogRecord::Stayed)
        },
        Key::Up => if y > 0 {
            (x, (y - 1) as usize, LogRecord::Moved(x, (y - 1) as usize))
        } else {
            (x, y, LogRecord::Stayed)
        },
        Key::Down => if y + 1 < height {
            (x, (y + 1) as usize, LogRecord::Moved(x, (y + 1) as usize))
        } else {
            (x, y, LogRecord::Stayed)
        },
        Key::Quit => (x, y, LogRecord::Finished),
    }
}

impl Game {
    pub closed spec fn position(&self) -> (usize, usize) {
        (self.x, self.y)
    }

    pub closed spec fn size(&self) -> (usize, usize) {
        (self.width, self.height)
    }

    pub closed spec fn started(&self) -> bool {
        self.is_started
    }

    pub fn new(width: usize, height: usize) -> (r: Game)
        ensures
            r.position() == (0usize, 0usize),
            r.size() == (width, height),
            !r.started(),
    {
        Game { x: 0, y: 0, width, height, is_started: false }
    }

    /// Logs the start, the first time only.
    fn start(&mut self, log: &mut Vec<LogRecord>)
        ensures
            final(self).position() == old(self).position(),
            final(self).size() == old(self).size(),
            final(self).started(),
            final(log)@ == (if old(self).started() {
                old(log)@
            } else {
                old(log)@.push(LogRecord::Started(old(self).position().0, old(self).position().1))
            }),
    {
        if !self.is_started {
            self.is_started = true;
            log.push(LogRecord::Started(self.x, self.y));
        }
    }

    /// Handles one key and returns what is to be logged for it, in order.
    pub fn process_key(&mut self, key: Key) -> (r: Vec<LogRecord>)
        ensures
            final(self).size() == old(self).size(),
            final(self).started(),
            ({
                let (x, y, rec) = key_effect(
                    old(self).position().0,
                    old(self).position().1,
                    old(self).size().0,
                    old(self).size().1,
                    key,
                );
                &&& final(self).position() == (x, y)
                &&& r@ == (if old(self).started() {
                    seq![rec]
                } else {
                    seq![LogRecord::Started(old(self).position().0, old(self).position().1), rec]
                })
            }),
    {
        let mut log: Vec<LogRecord> = Vec::new();
        self.start(&mut log);
        match key {
            Key::Left => {
                if self.x > 0 {
                    self.x = self.x - 1;
                    log.push(LogRecord::Moved(self.x, self.y));
                } else {
                    log.push(LogRecord::Stayed);
                }
            },
            Key::Right => {
                if self.width > 0 && self.x < self.width - 1 {
                    self.x = self.x + 1;
                    log.push(LogRecord::Moved(self.x, self.y));
                } else {
                    log.push(LogRecord::Stayed);
                }
            },
            Key::Up => {
                if self.y > 0 {
                    self.y = self.y - 1;
                    log.push(LogRecord::Moved(self.x, self.y));
                } else {
                    log.push(LogRecord::Stayed);
                }
            },
            Key::Down => {
                if self.height > 0 && self.y < self.height - 1 {
                    self.y = self.y + 1;
                    log.push(LogRecord::Moved(self.x, self.y));
                } else {
                    log.push(LogRecord::Stayed);
                }
            },
            Key::Quit => {
                log.push(LogRecord::Finished);
            },
        }
        assert(log@ =~= (if old(self).started() {
            seq![key_effect(old(self).position().0, old(self).position().1, old(self).size().0, old(self).size().1, key).2]
        } else {
            seq![
                LogRecord::Started(old(self).position().0, old(self).position().1),
                key_effect(old(self).position().0, old(self).position().1, old(self).size().0, old(self).size().1, key).2,
            ]
        }));
        log
    }
}

} // verus!
