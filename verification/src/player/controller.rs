use vstd::prelude::*;

verus! {

/// The movement (forward, up, right) and steering (right, up) that the
/// player asks for, over any copyable scalar. `zero` is the scalar's zero,
/// which the resets write.
#[derive(Debug)]
pub struct Controller<S> {
    movement: (S, S, S),
    steering: (S, S),
    zero: S,
}

impl<S: Copy> Controller<S> {
    /// The requested movement along forward, up and right.
    pub closed spec fn movement(&self) -> (S, S, S) {
        self.movement
    }

    /// The requested turn to the right and upwards.
    pub closed spec fn steering_view(&self) -> (S, S) {
        self.steering
    }

    /// The scalar the resets write.
    pub closed spec fn zero(&self) -> S {
        self.zero
    }

    /// A controller at rest.
    pub fn new(zero: S) -> (c: Self)
        ensures
            c.movement() == (zero, zero, zero),
            c.steering_view() == (zero, zero),
            c.zero() == zero,
    {
        Self { movement: (zero, zero, zero), steering: (zero, zero), zero }
    }

    pub fn reset_rotation(&mut self)
        ensures
            final(self).steering_view() == (old(self).zero(), old(self).zero()),
            final(self).movement() == old(self).movement(),
            final(self).zero() == old(self).zero(),
    {
        self.steering = (self.zero, self.zero);
    }

    pub fn reset_movement(&mut self)
        ensures
            final(self).movement() == (old(self).zero(), old(self).zero(), old(self).zero()),
            final(self).steering_view() == old(self).steering_view(),
            final(self).zero() == old(self).zero(),
    {
        self.movement = (self.zero, self.zero, self.zero);
    }

    pub fn reset(&mut self)
        ensures
            final(self).movement() == (old(self).zero(), old(self).zero(), old(self).zero()),
            final(self).steering_view() == (old(self).zero(), old(self).zero()),
            final(self).zero() == old(self).zero(),
    {
        self.reset_rotation();
        self.reset_movement();
    }

    pub fn forward(&mut self, amount: S)
        ensures
            final(self).movement() == (amount, old(self).movement().1, old(self).movement().2),
            final(self).steering_view() == old(self).steering_view(),
            final(self).zero() == old(self).zero(),
    {
        self.movement.0 = amount;
    }

    pub fn up(&mut self, amount: S)
        ensures
            final(self).movement() == (old(self).movement().0, amount, old(self).movement().2),
            final(self).steering_view() == old(self).steering_view(),
            final(self).zero() == old(self).zero(),
    {
        self.movement.1 = amount;
    }

    pub fn right(&mut self, amount: S)
        ensures
            final(self).movement() == (old(self).movement().0, old(self).movement().1, amount),
            final(self).steering_view() == old(self).steering_view(),
            final(self).zero() == old(self).zero(),
    {
        self.movement.2 = amount;
    }

    pub fn rotate_right(&mut self, amount: S)
        ensures
            final(self).steering_view() == (amount, old(self).steering_view().1),
            final(self).movement() == old(self).movement(),
            final(self).zero() == old(self).zero(),
    {
        self.steering.0 = amount;
    }

    pub fn rotate_up(&mut self, amount: S)
        ensures
            final(self).steering_view() == (old(self).steering_view().0, amount),
            final(self).movement() == old(self).movement(),
            final(self).zero() == old(self).zero(),
    {
        self.steering.1 = amount;
    }

    pub fn get_forward(&self) -> (r: S)
        ensures
            r == self.movement().0,
    {
        self.movement.0
    }

    pub fn get_up(&self) -> (r: S)
        ensures
            r == self.movement().1,
    {
        self.movement.1
    }

    /// The requested movement to the right.
    pub fn get_left(&self) -> (r: S)
        ensures
            r == self.movement().2,
    {
        self.movement.2
    }

    pub fn steering(&self) -> (r: (S, S))
        ensures
            r == self.steering_view(),
    {
        self.steering
    }

    pub fn get_rotate_right(&mut self) -> (r: S)
        ensures
            r == old(self).steering_view().0,
            *final(self) == *old(self),
    {
        self.steering.0
    }

    pub fn get_rotate_up(&mut self) -> (r: S)
        ensures
            r == old(self).steering_view().1,
            *final(self) == *old(self),
    {
        self.steering.1
    }
}

} // verus!
