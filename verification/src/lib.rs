pub mod bus_puzzle;
