pub mod coroutine;
